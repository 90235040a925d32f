//! Per-cell verdicts of the game board.

use vstd::prelude::*;

verus! {

/// One cell of the board: either empty, a letter still being typed, or a
/// scored letter of a submitted guess.
#[derive(Debug, PartialEq, Eq, Structural, Clone, Copy)]
pub enum CellValue {
    Empty,
    Typing(char),
    Absent(char),
    Present(char),
    Correct(char),
}

/// The share-text glyph of a cell: white for anything that is neither
/// present nor correct, yellow for present, green for correct.
pub open spec fn spec_score_char(v: CellValue) -> char {
    match v {
        CellValue::Empty | CellValue::Typing(_) | CellValue::Absent(_) => '⬜',
        CellValue::Present(_) => '🟨',
        CellValue::Correct(_) => '🟩',
    }
}

impl CellValue {
    /// The glyph this cell contributes to the copyable score text.
    pub fn score_char(self) -> (c: char)
        ensures
            c == spec_score_char(self),
    {
        match self {
            CellValue::Empty | CellValue::Typing(_) | CellValue::Absent(_) => '⬜',
            CellValue::Present(_) => '🟨',
            CellValue::Correct(_) => '🟩',
        }
    }
}

} // verus!
