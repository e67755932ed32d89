//! The palette, the themes and the shadow convention.
//!
//! Every object is drawn twice: once one reference pixel down in the current
//! theme's shadow colour, then again on top in white. Only the background and
//! shadow change between themes; the foreground is always [`INK`].

use crate::bits::ZERO;
use crate::text::same_text;
use vstd::prelude::*;

verus! {

/// How far every drop shadow falls straight down, by its bit pattern: one
/// reference pixel, -6.25.
pub const SHADOW_DROP: u32 = 0xc0c8_0000;

/// How far behind its body a shadow sits, by its bit pattern: -0.1.
pub const SHADOW_DEPTH: u32 = 0xbdcc_cccd;

/// The palette index the foreground is drawn in, in every theme.
pub const INK: u8 = 7;

/// An opaque colour taken from the reference palette.
#[derive(Clone, Copy, Debug, PartialEq, Eq, Structural)]
pub struct Rgb {
    pub red: u8,
    pub green: u8,
    pub blue: u8,
}

impl Rgb {
    /// Build a colour from its three 8-bit channels.
    pub fn new(red: u8, green: u8, blue: u8) -> (colour: Self)
        ensures
            colour == (Rgb { red, green, blue }),
    {
        Rgb { red, green, blue }
    }
}

/// The reference palette: eight bits each of red, green and blue.
pub const PICO8: [u32; 16] = [
    0x00_00_00, 0x1d_2b_53, 0x7e_25_53, 0x00_87_51,
    0xab_52_36, 0x5f_57_4f, 0xc2_c3_c7, 0xff_f1_e8,
    0xff_00_4d, 0xff_a3_00, 0xff_ec_27, 0x00_e4_36,
    0x29_ad_ff, 0x83_76_9c, 0xff_77_a8, 0xff_cc_aa,
];

/// The three channels of a palette entry.
pub open spec fn channels(entry: u32) -> Rgb {
    Rgb {
        red: (entry as int / 0x1_0000 % 256) as u8,
        green: (entry as int / 0x100 % 256) as u8,
        blue: (entry as int % 256) as u8,
    }
}

/// The colour of a palette index; of any other index, the ink.
pub open spec fn painted(index: u8) -> Rgb {
    channels(
        if index < 16 {
            PICO8@[index as int]
        } else {
            PICO8@[INK as int]
        },
    )
}

/// Look up a palette colour, falling back to [`INK`] rather than panicking.
pub fn color(index: u8) -> (colour: Rgb)
    ensures
        colour == painted(index),
{
    let palette: [u32; 16] = PICO8;
    let entry: u32 = if index < 16 { palette[index as usize] } else { palette[INK as usize] };
    Rgb::new((entry / 0x1_0000 % 256) as u8, (entry / 0x100 % 256) as u8, (entry % 256) as u8)
}

/// A selectable colour scheme: only the background and shadow ever change.
#[derive(Clone, Copy, Debug, PartialEq, Eq)]
pub struct Theme {
    pub name: &'static str,
    pub background: u8,
    pub shadow: u8,
}

/// The thirteen themes, in the order they are offered: name, background and
/// shadow.
pub const THEMES: [(&'static str, u8, u8); 13] = [
    ("blue", 12, 1),
    ("dark blue", 1, 0),
    ("green", 3, 1),
    ("indigo", 13, 1),
    ("purple", 2, 1),
    ("orange", 9, 8),
    ("pink", 14, 2),
    ("grey", 6, 5),
    ("dark grey", 5, 0),
    ("black", 0, 0),
    ("neon red", 0, 8),
    ("neon blue", 0, 12),
    ("neon green", 0, 11),
];

/// The theme at a place in the table.
pub open spec fn theme_entry(index: int) -> Theme {
    Theme { name: THEMES@[index].0, background: THEMES@[index].1, shadow: THEMES@[index].2 }
}

impl Theme {
    /// The theme at a place in the table, if there is one.
    pub fn at(index: usize) -> (found: Option<Theme>)
        ensures
            found == if index < 13 {
                Some(theme_entry(index as int))
            } else {
                None
            },
    {
        if index >= 13 {
            return None;
        }
        let themes: [(&'static str, u8, u8); 13] = THEMES;
        let entry: (&'static str, u8, u8) = themes[index];
        Some(Theme { name: entry.0, background: entry.1, shadow: entry.2 })
    }
}

impl Default for Theme {
    /// The theme the game starts in.
    fn default() -> (theme: Self)
        ensures
            theme == theme_entry(0),
    {
        let themes: [(&'static str, u8, u8); 13] = THEMES;
        let entry: (&'static str, u8, u8) = themes[0];
        Theme { name: entry.0, background: entry.1, shadow: entry.2 }
    }
}

/// Three values, by their bit patterns.
#[derive(Clone, Copy, Debug, PartialEq, Eq, Structural)]
pub struct Vec3 {
    pub x: u32,
    pub y: u32,
    pub z: u32,
}

/// Where a shadow sits relative to the body that casts it.
pub fn shadow_translation() -> (translation: Vec3)
    ensures
        translation == (Vec3 { x: ZERO, y: SHADOW_DROP, z: SHADOW_DEPTH }),
{
    Vec3 { x: ZERO, y: SHADOW_DROP, z: SHADOW_DEPTH }
}

/// The first theme of that name, at or after `from`.
pub open spec fn theme_named(name: Seq<char>, from: int) -> Option<Theme>
    decreases 13 - from,
{
    if from < 0 || from >= 13 {
        None
    } else if theme_entry(from).name@ == name {
        Some(theme_entry(from))
    } else {
        theme_named(name, from + 1)
    }
}

/// Find a theme by its display name.
pub fn theme(name: &str) -> (found: Option<Theme>)
    ensures
        found == theme_named(name@, 0),
{
    let themes: [(&'static str, u8, u8); 13] = THEMES;
    let mut index: usize = 0;
    while index < 13
        invariant
            index <= 13,
            themes == THEMES,
            theme_named(name@, 0) == theme_named(name@, index as int),
        decreases 13 - index,
    {
        if same_text(themes[index].0, name) {
            return Theme::at(index);
        }
        index = index + 1;
    }
    None
}

/// A colour's channels are the three bytes of its palette entry, and every index
/// that is not in the palette is painted in ink.
pub proof fn law_colours_are_palette_entries(index: u8)
    ensures
        ({
            let colour = painted(index);
            let entry = if index < 16 {
                PICO8@[index as int]
            } else {
                PICO8@[7]
            };
            colour.red * 0x1_0000 + colour.green * 0x100 + colour.blue == entry
        }),
{
    let palette = PICO8@;
    if index < 16 {
        assert(palette[index as int] < 0x100_0000) by {
            let i = index as int;
            assert(i == 0 || i == 1 || i == 2 || i == 3 || i == 4 || i == 5 || i == 6 || i == 7
                || i == 8 || i == 9 || i == 10 || i == 11 || i == 12 || i == 13 || i == 14 || i
                == 15);
        }
    }
}

proof fn lemma_theme_named(name: Seq<char>, from: int)
    requires
        0 <= from <= 13,
    ensures
        match theme_named(name, from) {
            Some(theme) => theme.name@ == name && exists|i: int|
                from <= i < 13 && theme == #[trigger] theme_entry(i) && forall|k: int|
                    from <= k < i ==> (#[trigger] theme_entry(k)).name@ != name,
            None => forall|k: int| from <= k < 13 ==> (#[trigger] theme_entry(k)).name@ != name,
        },
    decreases 13 - from,
{
    if from < 13 {
        if theme_entry(from).name@ != name {
            lemma_theme_named(name, from + 1);
        } else {
            assert(theme_named(name, from) == Some(theme_entry(from)));
        }
    }
}

/// A theme that is looked up by name is the first of that name, and a name is not
/// found only if no theme has it. Every theme says what its row of the table says.
pub proof fn law_themes_are_found_by_name(name: Seq<char>, index: int)
    requires
        0 <= index < 13,
    ensures
        theme_named(name, 0) matches Some(theme) ==> theme.name@ == name,
        theme_named(name, 0) is None ==> theme_entry(index).name@ != name,
        theme_entry(index).name == THEMES@[index].0,
        theme_entry(index).background == THEMES@[index].1,
        theme_entry(index).shadow == THEMES@[index].2,
{
    lemma_theme_named(name, 0);
}

/// A palette entry is its three channels, red the highest.
pub proof fn law_entries_are_their_channels(entry: u32)
    requires
        entry < 0x100_0000,
    ensures
        channels(entry).red * 0x1_0000 + channels(entry).green * 0x100 + channels(entry).blue
            == entry,
{
}

} // verus!
