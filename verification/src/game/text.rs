//! Which font pixels a text lights.

use crate::glyphs::{entry, glyph, rows, GLYPH_HEIGHT, GLYPH_WIDTH};
use vstd::prelude::*;
use vstd::string::*;

verus! {

/// One lit font pixel: the character it belongs to, its column in the glyph
/// from the left, and its row from the bottom.
#[derive(Clone, Copy, Debug, PartialEq, Eq, Structural)]
pub struct Pixel {
    pub character: usize,
    pub column: usize,
    pub row: usize,
}

/// The pixel at a column of a glyph's row; the highest of the three bits is the
/// leftmost.
pub open spec fn lit(bits: u8, column: int) -> bool {
    if column == 0 {
        bits as int / 4 % 2 == 1
    } else if column == 1 {
        bits as int / 2 % 2 == 1
    } else {
        bits as int % 2 == 1
    }
}

/// The lit pixels of the first columns of a row, left to right.
pub open spec fn row_pixels(bits: u8, character: usize, row: usize, columns: nat) -> Seq<Pixel>
    decreases columns,
{
    if columns == 0 {
        Seq::empty()
    } else {
        let before = row_pixels(bits, character, row, (columns - 1) as nat);
        if lit(bits, columns - 1) {
            before.push(Pixel { character, column: (columns - 1) as usize, row })
        } else {
            before
        }
    }
}

/// The lit pixels of the first rows of a glyph, top to bottom. Rows run top to
/// bottom in the font and bottom to top in the world.
pub open spec fn glyph_pixels(shape: u16, character: usize, count: nat) -> Seq<Pixel>
    decreases count,
{
    if count == 0 {
        Seq::empty()
    } else {
        glyph_pixels(shape, character, (count - 1) as nat) + row_pixels(
            rows(shape)[count - 1],
            character,
            (GLYPH_HEIGHT - count) as usize,
            GLYPH_WIDTH as nat,
        )
    }
}

/// The lit pixels of a text. A character the font lacks stays blank.
pub open spec fn pixels_of(text: Seq<char>) -> Seq<Pixel>
    decreases text.len(),
{
    if text.len() == 0 {
        Seq::empty()
    } else {
        pixels_of(text.drop_last()) + match entry(text.last()) {
            Some(shape) => glyph_pixels(shape, (text.len() - 1) as usize, GLYPH_HEIGHT as nat),
            None => Seq::empty(),
        }
    }
}

fn add_row(pixels: &mut Vec<Pixel>, bits: u8, character: usize, row: usize)
    ensures
        final(pixels)@ == old(pixels)@ + row_pixels(bits, character, row, GLYPH_WIDTH as nat),
{
    reveal_with_fuel(row_pixels, 4);
    if bits / 4 % 2 == 1 {
        pixels.push(Pixel { character, column: 0, row });
    }
    assert(pixels@ =~= old(pixels)@ + row_pixels(bits, character, row, 1));
    if bits / 2 % 2 == 1 {
        pixels.push(Pixel { character, column: 1, row });
    }
    assert(pixels@ =~= old(pixels)@ + row_pixels(bits, character, row, 2));
    if bits % 2 == 1 {
        pixels.push(Pixel { character, column: 2, row });
    }
    assert(pixels@ =~= old(pixels)@ + row_pixels(bits, character, row, 3));
}

/// The pixels a text lights, character by character.
pub fn text_pixels(text: &str) -> (pixels: Vec<Pixel>)
    ensures
        pixels@ == pixels_of(text@),
{
    let length: usize = text.unicode_len();
    let mut pixels: Vec<Pixel> = Vec::new();
    let mut index: usize = 0;
    assert(text@.take(0) =~= Seq::empty());
    while index < length
        invariant
            index <= length,
            length == text@.len(),
            pixels@ == pixels_of(text@.take(index as int)),
        decreases length - index,
    {
        let ghost before = pixels@;
        proof {
            assert(text@.take(index + 1).drop_last() =~= text@.take(index as int));
        }
        let character: char = text.get_char(index);
        match glyph(character) {
            Some(shape) => {
                let ghost found = entry(character)->0;
                let mut row: usize = 0;
                assert(pixels@ =~= before + glyph_pixels(found, index, 0));
                while row < GLYPH_HEIGHT
                    invariant
                        row <= GLYPH_HEIGHT,
                        shape@ == rows(found),
                        pixels@ == before + glyph_pixels(found, index, row as nat),
                    decreases GLYPH_HEIGHT - row,
                {
                    add_row(&mut pixels, shape[row], index, GLYPH_HEIGHT - 1 - row);
                    row = row + 1;
                    assert(pixels@ =~= before + glyph_pixels(found, index, row as nat));
                }
            },
            None => {
                assert(pixels@ =~= before + Seq::<Pixel>::empty());
            },
        }
        index = index + 1;
    }
    assert(text@.take(index as int) =~= text@);
    pixels
}

proof fn lemma_row_pixels(bits: u8, character: usize, row: usize, columns: nat, pixel: Pixel)
    requires
        columns <= GLYPH_WIDTH,
    ensures
        row_pixels(bits, character, row, columns).contains(pixel) <==> (pixel.character == character
            && pixel.row == row && pixel.column < columns && lit(bits, pixel.column as int)),
    decreases columns,
{
    if columns > 0 {
        lemma_row_pixels(bits, character, row, (columns - 1) as nat, pixel);
        let before = row_pixels(bits, character, row, (columns - 1) as nat);
        let last = Pixel { character, column: (columns - 1) as usize, row };
        if lit(bits, columns - 1) {
            let after = before.push(last);
            assert(after[after.len() - 1] == last);
            if before.contains(pixel) {
                let k = choose|k: int| 0 <= k < before.len() && before[k] == pixel;
                assert(after[k] == pixel);
            }
            if after.contains(pixel) && pixel != last {
                let k = choose|k: int| 0 <= k < after.len() && after[k] == pixel;
                assert(before[k] == pixel);
            }
        }
    }
}

proof fn lemma_sum_contains<T>(left: Seq<T>, right: Seq<T>, item: T)
    ensures
        (left + right).contains(item) <==> left.contains(item) || right.contains(item),
{
    let all = left + right;
    if left.contains(item) {
        let k = choose|k: int| 0 <= k < left.len() && left[k] == item;
        assert(all[k] == item);
    }
    if right.contains(item) {
        let k = choose|k: int| 0 <= k < right.len() && right[k] == item;
        assert(all[left.len() + k] == item);
    }
    if all.contains(item) {
        let k = choose|k: int| 0 <= k < all.len() && all[k] == item;
        if k < left.len() {
            assert(left[k] == item);
        } else {
            assert(right[k - left.len()] == item);
        }
    }
}

proof fn lemma_glyph_pixels(shape: u16, character: usize, count: nat, pixel: Pixel)
    requires
        count <= GLYPH_HEIGHT,
    ensures
        glyph_pixels(shape, character, count).contains(pixel) <==> (pixel.character == character
            && GLYPH_HEIGHT - count <= pixel.row < GLYPH_HEIGHT && pixel.column < GLYPH_WIDTH
            && lit(rows(shape)[GLYPH_HEIGHT - 1 - pixel.row], pixel.column as int)),
    decreases count,
{
    if count > 0 {
        lemma_glyph_pixels(shape, character, (count - 1) as nat, pixel);
        let bits = rows(shape)[count - 1];
        let row = (GLYPH_HEIGHT - count) as usize;
        lemma_row_pixels(bits, character, row, GLYPH_WIDTH as nat, pixel);
        lemma_sum_contains(
            glyph_pixels(shape, character, (count - 1) as nat),
            row_pixels(bits, character, row, GLYPH_WIDTH as nat),
            pixel,
        );
    }
}

/// A text lights exactly the pixels its glyphs have, each inside the cell of
/// its own character.
pub proof fn law_texts_light_their_glyphs(text: Seq<char>, pixel: Pixel)
    requires
        text.len() <= usize::MAX,
    ensures
        pixels_of(text).contains(pixel) <==> {
            &&& pixel.character < text.len()
            &&& pixel.row < GLYPH_HEIGHT
            &&& pixel.column < GLYPH_WIDTH
            &&& entry(text[pixel.character as int]) matches Some(shape) && lit(
                rows(shape)[GLYPH_HEIGHT - 1 - pixel.row],
                pixel.column as int,
            )
        },
    decreases text.len(),
{
    if text.len() > 0 {
        let shorter = text.drop_last();
        law_texts_light_their_glyphs(shorter, pixel);
        let last = match entry(text.last()) {
            Some(shape) => glyph_pixels(shape, (text.len() - 1) as usize, GLYPH_HEIGHT as nat),
            None => Seq::empty(),
        };
        lemma_sum_contains(pixels_of(shorter), last, pixel);
        if let Some(shape) = entry(text.last()) {
            lemma_glyph_pixels(shape, (text.len() - 1) as usize, GLYPH_HEIGHT as nat, pixel);
        }
        if pixel.character < shorter.len() {
            assert(shorter[pixel.character as int] == text[pixel.character as int]);
        }
    }
}

/// The three bits of a row are its three pixels, the highest on the left.
pub proof fn law_bits_are_pixels(bits: u8)
    requires
        bits < 8,
    ensures
        bits == (if lit(bits, 0) {
            4int
        } else {
            0
        }) + (if lit(bits, 1) {
            2int
        } else {
            0
        }) + (if lit(bits, 2) {
            1int
        } else {
            0
        }),
{
}

} // verus!
