//! The font: one 5 x 5 glyph for each capital letter and for the space.

use crate::matrix::{blank_frame, FrameView, MatrixCell, MatrixFrame};
use crate::scroller::MATRIX_SIZE;
use vstd::prelude::*;

verus! {

/// The glyphs of `'A'` to `'Z'`, in order. A glyph is written as five groups
/// of five bits, one group per row from the top row down; within a group the
/// leftmost bit is the leftmost column, and a 1 is a lit cell.
pub const LETTER_ROWS: [u32; 26] = [
    0b00100_01010_01110_01010_01010,
    0b01100_01010_01100_01010_01100,
    0b01110_01000_01000_01000_01110,
    0b01100_01010_01010_01010_01100,
    0b01110_01000_01100_01000_01110,
    0b01110_01000_01100_01000_01000,
    0b01110_01000_01010_01010_01110,
    0b01010_01010_01110_01010_01010,
    0b01110_00100_00100_00100_01110,
    0b00010_00010_00010_01010_00100,
    0b01010_01010_01100_01010_01010,
    0b01000_01000_01000_01000_01110,
    0b10001_11011_10101_10001_10001,
    0b10001_11001_10101_10011_10001,
    0b00100_01010_01010_01010_00100,
    0b01100_01010_01100_01000_01000,
    0b00100_01010_01010_01110_00110,
    0b01100_01010_01100_01010_01010,
    0b01110_01000_01110_00010_01110,
    0b01110_00100_00100_00100_00100,
    0b01010_01010_01010_01010_01110,
    0b01010_01010_01010_01010_00100,
    0b10001_10001_10101_11011_10001,
    0b01010_01010_00100_01010_01010,
    0b01010_01010_00100_00100_00100,
    0b01110_00010_00100_01000_01110,
];

/// The cell that a glyph's bit pattern gives at (`row`, `col`).
pub open spec fn bit_cell(bits: u32, row: int, col: int) -> MatrixCell {
    if (bits >> ((24 - (5 * row + col)) as u32)) & 1 == 1 {
        MatrixCell::Lit
    } else {
        MatrixCell::Off
    }
}

/// The frame that a glyph's bit pattern stands for.
pub open spec fn bits_frame(bits: u32) -> FrameView {
    Seq::new(5, |row: int| Seq::new(5, |col: int| bit_cell(bits, row, col)))
}

/// The glyph table: the frame of `c`, or `None` where the font has no glyph
/// for it. The font covers `'A'` to `'Z'` and the space, which is blank.
pub open spec fn glyph(c: char) -> Option<FrameView> {
    if 'A' <= c && c <= 'Z' {
        Some(bits_frame(LETTER_ROWS[c as u32 - 'A' as u32]))
    } else if c == ' ' {
        Some(blank_frame(5))
    } else {
        None
    }
}

/// Every character of `text` has a glyph.
pub open spec fn all_supported(text: Seq<char>) -> bool {
    forall|i: int| 0 <= i < text.len() ==> (#[trigger] glyph(text[i])) is Some
}

fn cell_of(bits: u32, row: usize, col: usize) -> (cell: MatrixCell)
    requires
        row < 5,
        col < 5,
    ensures
        cell == bit_cell(bits, row as int, col as int),
{
    let shift: u32 = (24 - (5 * row + col)) as u32;
    if (bits >> shift) & 1 == 1 {
        MatrixCell::Lit
    } else {
        MatrixCell::Off
    }
}

fn row_of(bits: u32, row: usize) -> (cells: [MatrixCell; 5])
    requires
        row < 5,
    ensures
        cells@ == bits_frame(bits)[row as int],
{
    let cells = [
        cell_of(bits, row, 0),
        cell_of(bits, row, 1),
        cell_of(bits, row, 2),
        cell_of(bits, row, 3),
        cell_of(bits, row, 4),
    ];
    proof {
        broadcast use vstd::array::group_array_axioms;

        assert(cells@ =~= bits_frame(bits)[row as int]);
    }
    cells
}

fn frame_of(bits: u32) -> (frame: MatrixFrame<MATRIX_SIZE>)
    ensures
        frame@ == bits_frame(bits),
{
    let frame = MatrixFrame(
        [row_of(bits, 0), row_of(bits, 1), row_of(bits, 2), row_of(bits, 3), row_of(bits, 4)],
    );
    proof {
        broadcast use vstd::array::group_array_axioms;

        assert(frame@ =~= bits_frame(bits));
    }
    frame
}

/// The space is in the font, and its glyph is blank.
pub proof fn lemma_space_is_blank()
    ensures
        glyph(' ') == Some(blank_frame(5)),
{
}

/// Every glyph is a 5 x 5 grid.
pub proof fn lemma_glyph_is_square(c: char)
    requires
        glyph(c) is Some,
    ensures
        crate::matrix::is_square(glyph(c)->0, 5),
{
}

/// Looks `c` up in the glyph table.
pub fn letter_frame(c: char) -> (found: Option<MatrixFrame<MATRIX_SIZE>>)
    ensures
        match found {
            Some(frame) => glyph(c) == Some(frame@),
            None => glyph(c) is None,
        },
{
    if 'A' <= c && c <= 'Z' {
        let slot: usize = (c as u32 - 'A' as u32) as usize;
        Some(frame_of(LETTER_ROWS[slot]))
    } else if c == ' ' {
        Some(MatrixFrame::default())
    } else {
        None
    }
}

/// Whether the glyph table has an entry for `c`.
pub fn contains_key(c: char) -> (present: bool)
    ensures
        present == glyph(c) is Some,
{
    ('A' <= c && c <= 'Z') || c == ' '
}

} // verus!
