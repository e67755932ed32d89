//! A 3x5 bitmap font, drawn to match the game's blocky shapes.
//!
//! Each glyph is five rows; the low three bits of each row are its pixels, with
//! bit 2 on the left. The font exists so titles and scores need no font asset.

use vstd::prelude::*;
use vstd::string::*;

verus! {

/// Width of one glyph, in font pixels.
pub const GLYPH_WIDTH: usize = 3;

/// Height of one glyph, in font pixels.
pub const GLYPH_HEIGHT: usize = 5;

/// Blank columns between two adjacent glyphs.
pub const GLYPH_GAP: usize = 1;

/// Stands in the font where there is no glyph.
pub const NO_GLYPH: u16 = 0o100000;

/// The glyphs from the space to `Z`: five octal digits each, one per row, from
/// the top.
pub const FONT: [u16; 59] = [
    0o00000, NO_GLYPH, NO_GLYPH, NO_GLYPH, NO_GLYPH, NO_GLYPH, NO_GLYPH, NO_GLYPH,
    NO_GLYPH, NO_GLYPH, NO_GLYPH, NO_GLYPH, NO_GLYPH, NO_GLYPH, NO_GLYPH, NO_GLYPH,
    0o75557, 0o26227, 0o71747, 0o71317, 0o55711, 0o74717, 0o74757, 0o71111,
    0o75757, 0o75717, NO_GLYPH, NO_GLYPH, NO_GLYPH, NO_GLYPH, NO_GLYPH, NO_GLYPH,
    NO_GLYPH, 0o75755, 0o65656, 0o74447, 0o65556, 0o74747, 0o74744, 0o74557,
    0o55755, 0o72227, 0o11157, 0o55655, 0o44447, 0o57755, 0o65555, 0o75557,
    0o75744, 0o75571, 0o75655, 0o74717, 0o72222, 0o55557, 0o55552, 0o55775,
    0o55255, 0o55722, 0o71247,
];

/// A letter in upper case; any other character as it is.
pub open spec fn upper(character: char) -> int {
    if 'a' <= character <= 'z' {
        character as int - 32
    } else {
        character as int
    }
}

/// The font's entry for a character, if it has one.
pub open spec fn entry(character: char) -> Option<u16> {
    let code = upper(character);
    if 32 <= code <= 90 && FONT@[code - 32] != NO_GLYPH {
        Some(FONT@[code - 32])
    } else {
        None
    }
}

/// The octal digits of a font entry, from the top row down.
pub open spec fn rows(entry: u16) -> Seq<u8> {
    seq![
        (entry as int / 4096 % 8) as u8,
        (entry as int / 512 % 8) as u8,
        (entry as int / 64 % 8) as u8,
        (entry as int / 8 % 8) as u8,
        (entry as int % 8) as u8,
    ]
}

/// The pixel rows for one character, or `None` if the font has no such glyph.
pub fn glyph(character: char) -> (found: Option<[u8; GLYPH_HEIGHT]>)
    ensures
        match entry(character) {
            Some(entry) => found matches Some(pixels) && pixels@ == rows(entry),
            None => found is None,
        },
{
    let code: u32 = if 'a' <= character && character <= 'z' {
        character as u32 - 32
    } else {
        character as u32
    };
    if code < 32 || code > 90 {
        return None;
    }
    let font: [u16; 59] = FONT;
    let shape: u16 = font[(code - 32) as usize];
    if shape == NO_GLYPH {
        return None;
    }
    let pixels: [u8; GLYPH_HEIGHT] = [
        (shape / 4096 % 8) as u8,
        (shape / 512 % 8) as u8,
        (shape / 64 % 8) as u8,
        (shape / 8 % 8) as u8,
        (shape % 8) as u8,
    ];
    assert(pixels@ =~= rows(shape));
    Some(pixels)
}

/// The columns so many glyphs take, gaps included, as far as a `usize` counts.
pub open spec fn columns(count: nat) -> int {
    if count == 0 {
        0
    } else {
        let glyphs = count * GLYPH_WIDTH;
        let capped = if glyphs > usize::MAX { usize::MAX as int } else { glyphs };
        let all = capped + (count - 1) * GLYPH_GAP;
        if all > usize::MAX { usize::MAX as int } else { all }
    }
}

/// Width of a rendered string in font pixels, gaps included.
pub fn text_width(text: &str) -> (width: usize)
    ensures
        width == columns(text@.len()),
{
    let count: usize = text.unicode_len();
    if count == 0 {
        return 0;
    }
    let glyphs: usize = match count.checked_mul(GLYPH_WIDTH) {
        Some(glyphs) => glyphs,
        None => usize::MAX,
    };
    glyphs.saturating_add(count - 1)
}

/// A row of a glyph never holds more than three pixels.
pub proof fn law_rows_are_three_bits(character: char, row: int)
    requires
        entry(character) is Some,
        0 <= row < GLYPH_HEIGHT,
    ensures
        rows(entry(character)->0).len() == GLYPH_HEIGHT,
        rows(entry(character)->0)[row] < 8,
{
}

/// A letter looks the same in either case.
pub proof fn law_case_makes_no_difference(small: char, large: char)
    requires
        'a' <= small <= 'z',
        large as int == small as int - 32,
    ensures
        entry(small) == entry(large),
{
}

/// The rows of a glyph are the digits of its entry, from the top: put together
/// again they are the entry.
pub proof fn law_rows_make_up_the_entry(entry: u16)
    requires
        entry < NO_GLYPH,
    ensures
        rows(entry)[0] * 4_096 + rows(entry)[1] * 512 + rows(entry)[2] * 64 + rows(entry)[3] * 8
            + rows(entry)[4] == entry,
        rows(entry).len() == 5,
{
    let whole = entry as int;
    let (a, b, c, d) = (whole / 8, whole / 64, whole / 512, whole / 4_096);
    assert(a / 8 == b && b / 8 == c && c / 8 == d);
    assert(whole == 8 * a + whole % 8 && a == 8 * b + a % 8);
    assert(b == 8 * c + b % 8 && c == 8 * d + c % 8);
    assert(d % 8 == d);
}

/// A text is as wide as its glyphs with one blank column between every two.
pub proof fn law_texts_are_as_wide_as_their_glyphs(count: nat)
    requires
        count < 0x1000_0000,
    ensures
        columns(0) == 0,
        columns(1) == 3,
        count > 0 ==> columns(count + 1) == columns(count) + 4,
{
}

/// A character between the space and `Z` has the glyph the font holds for it, and
/// every other but a small letter has none.
pub proof fn law_glyphs_stand_in_the_font(character: char)
    ensures
        32 <= character as int <= 90 && FONT@[character as int - 32] != NO_GLYPH ==> entry(
            character,
        ) == Some(FONT@[character as int - 32]),
        32 <= character as int <= 90 && FONT@[character as int - 32] == NO_GLYPH ==> entry(
            character,
        ) is None,
        (character as int) < 32 || 90 < character as int && !('a' <= character <= 'z') ==> entry(
            character,
        ) is None,
{
}

} // verus!
