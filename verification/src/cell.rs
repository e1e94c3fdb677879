use vstd::prelude::*;

verus! {

/// What one square hides: a bomb, or the number of bomb-carrying neighbors.
#[derive(Clone, Copy, Debug, PartialEq, Eq, Structural)]
pub enum CellContents {
    Bomb,
    Hint(u32),
}

impl Default for CellContents {
    fn default() -> (r: Self)
        ensures
            r == CellContents::Hint(0u32),
    {
        CellContents::Hint(0)
    }
}

/// Visibility of one square. `Hidden` and `Flagged` exchange freely;
/// `Revealed` is terminal.
#[derive(Clone, Copy, Debug, PartialEq, Eq, Structural)]
pub enum CellState {
    Hidden,
    Revealed,
    Flagged,
}

impl Default for CellState {
    fn default() -> (r: Self)
        ensures
            r == CellState::Hidden,
    {
        CellState::Hidden
    }
}

/// One square of the board.
#[derive(Clone, Copy, Debug, PartialEq, Eq, Structural)]
pub struct Cell {
    pub contents: CellContents,
    pub state: CellState,
}

impl Default for Cell {
    fn default() -> (r: Self)
        ensures
            r == (Cell { contents: CellContents::Hint(0u32), state: CellState::Hidden }),
    {
        Cell { contents: CellContents::Hint(0), state: CellState::Hidden }
    }
}

/// What the presentation layer needs in order to pick a glyph for one cell.
#[derive(Clone, Copy, Debug, PartialEq, Eq, Structural)]
pub enum Marker {
    Flag,
    Concealed,
    Bomb,
    Digit(u32),
}

/// The glyph choice for a cell: flags and hidden squares conceal their
/// contents; a revealed square shows its bomb or its digit.
pub open spec fn marker_spec(cell: Cell) -> Marker {
    match cell.state {
        CellState::Flagged => Marker::Flag,
        CellState::Hidden => Marker::Concealed,
        CellState::Revealed => match cell.contents {
            CellContents::Bomb => Marker::Bomb,
            CellContents::Hint(n) => Marker::Digit(n),
        },
    }
}

/// Pick the rendering marker for one cell.
pub fn marker_for(cell: Cell) -> (m: Marker)
    ensures
        m == marker_spec(cell),
{
    match cell.state {
        CellState::Flagged => Marker::Flag,
        CellState::Hidden => Marker::Concealed,
        CellState::Revealed => match cell.contents {
            CellContents::Bomb => Marker::Bomb,
            CellContents::Hint(n) => Marker::Digit(n),
        },
    }
}

} // verus!
