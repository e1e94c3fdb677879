use mines::Grid;

#[test]
fn test_neighbors() {
    let size = (5, 5);
    let _grid = Grid::new(size);
}

fn sorted(mut v: Vec<(usize, usize)>) -> Vec<(usize, usize)> {
    v.sort();
    v
}

#[test]
fn test_neighbors_corner() {
    let grid = Grid::new((5, 5));
    let n = sorted(grid.neighbors((0, 0)));
    assert_eq!(n, vec![(0, 1), (1, 0), (1, 1)]);
    let n = sorted(grid.neighbors((4, 4)));
    assert_eq!(n, vec![(3, 3), (3, 4), (4, 3)]);
    let n = sorted(grid.neighbors((0, 4)));
    assert_eq!(n, vec![(0, 3), (1, 3), (1, 4)]);
    let n = sorted(grid.neighbors((4, 0)));
    assert_eq!(n, vec![(3, 0), (3, 1), (4, 1)]);
}

#[test]
fn test_neighbors_edge() {
    let grid = Grid::new((5, 5));
    let n = sorted(grid.neighbors((0, 2)));
    assert_eq!(n, vec![(0, 1), (0, 3), (1, 1), (1, 2), (1, 3)]);
    let n = sorted(grid.neighbors((2, 0)));
    assert_eq!(n, vec![(1, 0), (1, 1), (2, 1), (3, 0), (3, 1)]);
    let n = sorted(grid.neighbors((4, 2)));
    assert_eq!(n, vec![(3, 1), (3, 2), (3, 3), (4, 1), (4, 3)]);
    let n = sorted(grid.neighbors((2, 4)));
    assert_eq!(n, vec![(1, 3), (1, 4), (2, 3), (3, 3), (3, 4)]);
}

#[test]
fn test_neighbors_interior() {
    let grid = Grid::new((5, 5));
    let n = sorted(grid.neighbors((2, 2)));
    assert_eq!(
        n,
        vec![
            (1, 1),
            (1, 2),
            (1, 3),
            (2, 1),
            (2, 3),
            (3, 1),
            (3, 2),
            (3, 3)
        ]
    );
}

#[test]
fn test_neighbors_tiny_grids() {
    let grid = Grid::new((1, 1));
    assert!(grid.neighbors((0, 0)).is_empty());

    let grid = Grid::new((1, 4));
    let n = sorted(grid.neighbors((0, 0)));
    assert_eq!(n, vec![(0, 1)]);
    let n = sorted(grid.neighbors((0, 2)));
    assert_eq!(n, vec![(0, 1), (0, 3)]);

    let grid = Grid::new((2, 2));
    let n = sorted(grid.neighbors((1, 0)));
    assert_eq!(n, vec![(0, 0), (0, 1), (1, 1)]);
}
