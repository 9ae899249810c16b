//! A single unit of the grid: what it holds and whether it has been revealed.

use vstd::prelude::*;

verus! {

/// What a cell holds when it is not blank.
#[derive(Debug, Clone, Copy, PartialEq, Eq, Structural)]
pub enum CellContents {
    /// A mine: revealing it loses the game.
    Bomb,
    /// The number of mines in the eight surrounding cells.
    Neighbors(u8),
}

/// One cell of the grid. A cell without content is blank: it is no mine and
/// no mine touches it.
#[derive(Debug, Clone, Copy)]
pub struct Cell {
    pub cell_content: Option<CellContents>,
    pub reveal: bool,
}

/// The largest number of mines that can surround a cell.
pub const MAX_NEIGHBORS: u8 = 8;

/// The character a revealed numbered cell is drawn as.
pub open spec fn digit_glyph(n: u8) -> char {
    ((n + 48) as u8) as char
}

impl Cell {
    /// A neighbour count, where there is one, does not exceed eight.
    pub open spec fn wf(self) -> bool {
        self.cell_content matches Some(CellContents::Neighbors(n)) ==> n <= MAX_NEIGHBORS
    }

    /// The cell holds a mine.
    pub open spec fn is_mine(self) -> bool {
        self.cell_content == Some(CellContents::Bomb)
    }

    /// The cell holds nothing: neither a mine nor a count.
    pub open spec fn is_blank(self) -> bool {
        self.cell_content is None
    }

    /// The same cell, revealed.
    pub open spec fn revealed(self) -> Cell {
        Cell { cell_content: self.cell_content, reveal: true }
    }

    /// The same cell, holding `content`.
    pub open spec fn with_content(self, content: Option<CellContents>) -> Cell {
        Cell { cell_content: content, reveal: self.reveal }
    }

    /// The character the cell is drawn as: `X` while hidden, then `B` for a
    /// mine, `_` for a blank cell and the digit for a count.
    pub open spec fn glyph(self) -> char {
        if !self.reveal {
            'X'
        } else {
            match self.cell_content {
                None => '_',
                Some(CellContents::Bomb) => 'B',
                Some(CellContents::Neighbors(n)) => digit_glyph(n),
            }
        }
    }

    /// A blank, hidden cell.
    pub fn new() -> (cell: Cell)
        ensures
            cell == (Cell { cell_content: None, reveal: false }),
    {
        Cell { cell_content: None, reveal: false }
    }

    /// Whether the cell has been revealed.
    pub fn is_revealed(&self) -> (r: bool)
        ensures
            r == self.reveal,
    {
        self.reveal
    }

    /// Reveals the cell; its content stays.
    pub fn set_reveal(&mut self)
        ensures
            *final(self) == old(self).revealed(),
    {
        self.reveal = true;
    }

    /// What the cell holds.
    pub fn cell_content(&self) -> (content: Option<CellContents>)
        ensures
            content == self.cell_content,
    {
        self.cell_content
    }

    /// Replaces what the cell holds; whether it is revealed stays.
    pub fn set_cell_content(&mut self, cell_content: Option<CellContents>)
        ensures
            *final(self) == old(self).with_content(cell_content),
    {
        self.cell_content = cell_content;
    }

    /// The character the cell is drawn as.
    pub fn symbol(&self) -> (c: char)
        requires
            self.wf(),
        ensures
            c == self.glyph(),
    {
        if !self.reveal {
            'X'
        } else {
            match self.cell_content {
                None => '_',
                Some(CellContents::Bomb) => 'B',
                Some(CellContents::Neighbors(n)) => (n + 48) as char,
            }
        }
    }
}

} // verus!
