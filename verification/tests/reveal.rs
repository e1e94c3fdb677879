use mines::{Cell, CellContents, CellState, Grid, Marker};

fn snapshot(grid: &Grid) -> Vec<Cell> {
    let (rows, cols) = grid.size();
    let mut v = Vec::new();
    for r in 0..rows {
        for c in 0..cols {
            v.push(grid.get((r, c)));
        }
    }
    v
}

#[test]
fn test_reveal_hint_cell_no_cascade() {
    // A single bomb in the middle of a 3x3 board: every other cell's hint
    // is 1, so revealing a corner reveals that corner alone.
    let mut g = Grid::new((3, 3));
    g.place_bomb((1, 1));
    for r in 0..3 {
        for c in 0..3 {
            if (r, c) != (1, 1) {
                assert_eq!(g.get((r, c)).contents, CellContents::Hint(1));
            }
        }
    }
    g.reveal_cell((0, 0));
    for r in 0..3 {
        for c in 0..3 {
            let expected = if (r, c) == (0, 0) {
                CellState::Revealed
            } else {
                CellState::Hidden
            };
            assert_eq!(g.get((r, c)).state, expected);
        }
    }
}

#[test]
fn test_reveal_cascades_over_empty_board() {
    // No bombs on a 2x2 board: every cell is Hint(0) and one reveal floods
    // the whole board.
    let mut g = Grid::new((2, 2));
    for r in 0..2 {
        for c in 0..2 {
            assert_eq!(g.get((r, c)).contents, CellContents::Hint(0));
        }
    }
    g.reveal_cell((0, 0));
    for r in 0..2 {
        for c in 0..2 {
            assert_eq!(g.get((r, c)).state, CellState::Revealed);
        }
    }
}

#[test]
fn test_flood_reveals_zero_region_and_rim() {
    // One bomb in the far corner of a 5x5 board: the zero region covers
    // everything but the bomb and its three hint-1 neighbors; those
    // neighbors are revealed as the rim, the bomb stays hidden.
    let mut g = Grid::new((5, 5));
    g.place_bomb((4, 4));
    g.reveal_cell((0, 0));
    for r in 0..5 {
        for c in 0..5 {
            let expected = if (r, c) == (4, 4) {
                CellState::Hidden
            } else {
                CellState::Revealed
            };
            assert_eq!(g.get((r, c)).state, expected);
        }
    }
}

#[test]
fn test_flood_stops_at_boundary() {
    // A 5x1 column with a bomb in the middle: revealing the top floods only
    // up to the hint-1 cell next to the bomb; everything past it stays
    // hidden.
    let mut g = Grid::new((5, 1));
    g.place_bomb((2, 0));
    g.reveal_cell((0, 0));
    assert_eq!(g.get((0, 0)).state, CellState::Revealed);
    assert_eq!(g.get((1, 0)).state, CellState::Revealed);
    assert_eq!(g.get((2, 0)).state, CellState::Hidden);
    assert_eq!(g.get((3, 0)).state, CellState::Hidden);
    assert_eq!(g.get((4, 0)).state, CellState::Hidden);
}

#[test]
fn test_reveal_idempotent() {
    let mut g = Grid::new((5, 5));
    g.place_bomb((4, 4));
    g.reveal_cell((0, 0));
    let first = snapshot(&g);
    g.reveal_cell((0, 0));
    assert_eq!(snapshot(&g), first);
}

#[test]
fn test_toggle_flag_round_trip() {
    let mut g = Grid::new((3, 3));
    g.toggle_flag((1, 2));
    assert_eq!(g.get((1, 2)).state, CellState::Flagged);
    assert_eq!(g.get((1, 1)).state, CellState::Hidden);
    g.toggle_flag((1, 2));
    assert_eq!(g.get((1, 2)).state, CellState::Hidden);
}

#[test]
fn test_toggle_flag_never_reveals_and_revealed_is_terminal() {
    let mut g = Grid::new((3, 3));
    g.place_bomb((1, 1));
    // A flag toggle alone never reveals a cell.
    g.toggle_flag((0, 0));
    assert_eq!(g.get((0, 0)).state, CellState::Flagged);
    g.toggle_flag((0, 0));
    assert_eq!(g.get((0, 0)).state, CellState::Hidden);
    // A revealed cell rejects both further transitions.
    g.reveal_cell((0, 0));
    assert_eq!(g.get((0, 0)).state, CellState::Revealed);
    g.toggle_flag((0, 0));
    assert_eq!(g.get((0, 0)).state, CellState::Revealed);
    g.reveal_cell((0, 0));
    assert_eq!(g.get((0, 0)).state, CellState::Revealed);
}

#[test]
fn test_flag_does_not_block_direct_reveal() {
    // The flag is advisory: a direct reveal of a flagged square reveals it.
    let mut g = Grid::new((3, 3));
    g.place_bomb((1, 1));
    g.toggle_flag((0, 0));
    assert_eq!(g.get((0, 0)).state, CellState::Flagged);
    g.reveal_cell((0, 0));
    assert_eq!(g.get((0, 0)).state, CellState::Revealed);
}

#[test]
fn test_markers() {
    let mut g = Grid::new((2, 2));
    g.place_bomb((0, 0));
    assert_eq!(g.marker((0, 0)), Marker::Concealed);
    g.toggle_flag((0, 0));
    assert_eq!(g.marker((0, 0)), Marker::Flag);
    g.toggle_flag((0, 0));
    g.reveal_cell((0, 0));
    assert_eq!(g.marker((0, 0)), Marker::Bomb);
    g.reveal_cell((1, 1));
    assert_eq!(g.marker((1, 1)), Marker::Digit(1));
}
