use mines::{generate, new_game, place_bombs_rnd, CellContents, Config, Difficulty, Grid};

fn count_bombs(grid: &Grid) -> u32 {
    let (rows, cols) = grid.size();
    let mut n = 0;
    for r in 0..rows {
        for c in 0..cols {
            if grid.get((r, c)).contents == CellContents::Bomb {
                n += 1;
            }
        }
    }
    n
}

/// Every non-bomb cell's hint must equal a recount of its bomb neighbors.
fn check_hints(grid: &Grid) {
    let (rows, cols) = grid.size();
    for r in 0..rows {
        for c in 0..cols {
            let cell = grid.get((r, c));
            if cell.contents == CellContents::Bomb {
                continue;
            }
            let mut expected = 0;
            for (nr, nc) in grid.neighbors((r, c)) {
                if grid.get((nr, nc)).contents == CellContents::Bomb {
                    expected += 1;
                }
            }
            assert_eq!(cell.contents, CellContents::Hint(expected));
        }
    }
}

#[test]
fn test_config_presets() {
    let b = Config::from(&Difficulty::Beginner);
    assert_eq!(b.size, (9, 9));
    assert_eq!(b.num_bombs, 10);
    let i = Config::from(&Difficulty::Intermediate);
    assert_eq!(i.size, (16, 16));
    assert_eq!(i.num_bombs, 40);
    let e = Config::from(&Difficulty::Expert);
    assert_eq!(e.size, (16, 30));
    assert_eq!(e.num_bombs, 99);
}

#[test]
fn test_config_is_valid() {
    assert!(Config { size: (3, 3), num_bombs: 8 }.is_valid());
    assert!(!Config { size: (3, 3), num_bombs: 9 }.is_valid());
    assert!(!Config { size: (0, 5), num_bombs: 0 }.is_valid());
    assert!(!Config { size: (5, 0), num_bombs: 0 }.is_valid());
}

#[test]
fn test_generate_rejects_invalid() {
    assert!(generate(&Config { size: (0, 5), num_bombs: 0 }).is_none());
    assert!(generate(&Config { size: (3, 3), num_bombs: 9 }).is_none());
}

#[test]
fn test_generate_small_board() {
    let g = generate(&Config { size: (4, 4), num_bombs: 15 }).unwrap();
    assert_eq!(count_bombs(&g), 15);
    check_hints(&g);
}

#[test]
fn test_bomb_count_beginner() {
    let g = new_game(&Difficulty::Beginner);
    assert_eq!(g.size(), (9, 9));
    assert_eq!(count_bombs(&g), 10);
    check_hints(&g);
}

#[test]
fn test_bomb_count_intermediate() {
    let g = new_game(&Difficulty::Intermediate);
    assert_eq!(g.size(), (16, 16));
    assert_eq!(count_bombs(&g), 40);
    check_hints(&g);
}

#[test]
fn test_bomb_count_expert() {
    let g = new_game(&Difficulty::Expert);
    assert_eq!(g.size(), (16, 30));
    assert_eq!(count_bombs(&g), 99);
    check_hints(&g);
}

#[test]
fn test_place_bombs_rnd_fills_almost_full_board() {
    let mut g = Grid::new((3, 3));
    place_bombs_rnd(&mut g, 8);
    assert_eq!(count_bombs(&g), 8);
    check_hints(&g);
}

#[test]
fn test_place_bomb_updates_hints() {
    let mut g = Grid::new((3, 3));
    g.place_bomb((1, 1));
    assert_eq!(count_bombs(&g), 1);
    check_hints(&g);
    for r in 0..3 {
        for c in 0..3 {
            if (r, c) != (1, 1) {
                assert_eq!(g.get((r, c)).contents, CellContents::Hint(1));
            }
        }
    }
}
