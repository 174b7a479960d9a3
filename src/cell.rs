use vstd::prelude::*;

verus! {

/// The state of one position of the grid.
#[derive(Clone, Copy, Debug, PartialEq, Eq, Structural)]
pub enum Cell {
    Alive,
    Dead,
}

/// The amount a cell adds to a neighbour count: one when alive, zero when dead.
pub open spec fn cell_value(c: Cell) -> nat {
    if c == Cell::Alive {
        1
    } else {
        0
    }
}

/// The character that stands for a cell in the text rendering.
pub open spec fn glyph(c: Cell) -> char {
    if c == Cell::Dead {
        '◻'
    } else {
        '◼'
    }
}

impl Cell {
    /// Whether the cell is alive.
    pub fn is_alive(&self) -> (r: bool)
        ensures
            r == (*self == Cell::Alive),
    {
        match self {
            Cell::Alive => true,
            Cell::Dead => false,
        }
    }

    /// The character used for this cell when the grid is rendered as text.
    pub fn symbol(&self) -> (r: char)
        ensures
            r == glyph(*self),
    {
        match self {
            Cell::Alive => '◼',
            Cell::Dead => '◻',
        }
    }
}

} // verus!
