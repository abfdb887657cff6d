//! The glyphs of the step counter: 8 pixels wide, 16 pixels high, one
//! `bool` for each pixel, row by row.

use vstd::prelude::*;

verus! {

/// Rows in a glyph.
pub const GLYPH_ROWS: usize = 16;

/// Columns in a glyph.
pub const GLYPH_COLUMNS: usize = 8;

/// Number of digits that have a glyph.
pub const GLYPH_COUNT: usize = 2;

/// A glyph: `true` where a pixel is drawn.
pub type Character = [[bool; GLYPH_COLUMNS]; GLYPH_ROWS];

/// The glyph of the digit 0.
pub const ZERO: Character = [
    [false, true, true, true, true, true, true, false],
    [true, true, true, true, true, true, true, true],
    [true, true, true, false, false, true, true, true],
    [true, true, false, false, false, false, true, true],
    [true, true, false, false, false, false, true, true],
    [true, true, false, false, false, false, true, true],
    [true, true, false, false, false, false, true, true],
    [true, true, false, false, false, false, true, true],
    [true, true, false, false, false, false, true, true],
    [true, true, false, false, false, false, true, true],
    [true, true, false, false, false, false, true, true],
    [true, true, false, false, false, false, true, true],
    [true, true, false, false, false, false, true, true],
    [true, true, true, false, false, true, true, true],
    [true, true, true, true, true, true, true, true],
    [false, true, true, true, true, true, true, false],
];

/// The glyph of the digit 1.
pub const ONE: Character = [
    [false, false, false, false, false, false, false, false],
    [false, true, true, true, true, true, true, false],
    [false, false, false, false, false, false, false, false],
    [false, false, false, false, false, false, false, false],
    [false, false, false, false, false, false, false, false],
    [false, false, false, false, false, false, false, false],
    [false, false, false, false, false, false, false, false],
    [false, false, false, false, false, false, false, false],
    [false, false, false, false, false, false, false, false],
    [false, false, false, false, false, false, false, false],
    [false, false, false, false, false, false, false, false],
    [false, false, false, false, false, false, false, false],
    [false, false, false, false, false, false, false, false],
    [false, false, false, false, false, false, false, false],
    [false, false, false, false, false, false, false, false],
    [false, false, false, false, false, false, false, false],
];

/// The glyphs of the digits, the glyph of 0 first.
pub const NUMBERS: [Character; GLYPH_COUNT] = [ZERO, ONE];

/// The pixels of a glyph, row by row.
pub open spec fn glyph_bits(character: Character) -> Seq<Seq<bool>> {
    Seq::new(GLYPH_ROWS as nat, |i: int| character@[i]@)
}

/// The pixels of the glyph of `digit`.
pub open spec fn digit_bits(digit: u8) -> Seq<Seq<bool>> {
    glyph_bits(NUMBERS@[digit as int])
}

} // verus!
