use vstd::prelude::*;

use crate::cell::{marker_for, marker_spec, Cell, CellContents, CellState, Marker};

verus! {

broadcast use vstd::seq_lib::lemma_seq_contains_after_push;

/// Moore adjacency: the two coordinates differ by at most one step in each
/// axis and are not the same square.
pub open spec fn adj(r1: int, c1: int, r2: int, c2: int) -> bool {
    -1 <= r1 - r2 <= 1 && -1 <= c1 - c2 <= 1 && !(r1 == r2 && c1 == c2)
}

pub open spec fn b2i(b: bool) -> int {
    if b {
        1
    } else {
        0
    }
}

pub open spec fn in_rect(rows: int, cols: int, r: int, c: int) -> bool {
    0 <= r < rows && 0 <= c < cols
}

/// How many in-bounds Moore neighbors a square at (r, c) of a rows x cols
/// grid has: one for each of the eight surrounding offsets that lands inside
/// the grid.
pub open spec fn moore_count(rows: int, cols: int, r: int, c: int) -> int {
    b2i(in_rect(rows, cols, r - 1, c - 1)) + b2i(in_rect(rows, cols, r - 1, c)) + b2i(
        in_rect(rows, cols, r - 1, c + 1),
    ) + b2i(in_rect(rows, cols, r, c - 1)) + b2i(in_rect(rows, cols, r, c + 1)) + b2i(
        in_rect(rows, cols, r + 1, c - 1),
    ) + b2i(in_rect(rows, cols, r + 1, c)) + b2i(in_rect(rows, cols, r + 1, c + 1))
}

/// Does the sequence hold the coordinate (r, c)?
pub open spec fn contains_coord(s: Seq<(usize, usize)>, r: int, c: int) -> bool {
    exists|i: int| 0 <= i < s.len() && (#[trigger] s[i]).0 == r && s[i].1 == c
}

/// Taking one more entry adds exactly that entry's coordinate to the
/// prefix's contents.
pub proof fn lemma_contains_coord_take_succ(s: Seq<(usize, usize)>, k: int, r: int, c: int)
    requires
        0 <= k < s.len(),
    ensures
        contains_coord(s.take(k + 1), r, c) <==> (contains_coord(s.take(k), r, c) || ((s[k]).0 == r
            && s[k].1 == c)),
{
    if contains_coord(s.take(k + 1), r, c) {
        let i = choose|i: int|
            0 <= i < s.take(k + 1).len() && (#[trigger] s.take(k + 1)[i]).0 == r && s.take(
                k + 1,
            )[i].1 == c;
        assert(s.take(k + 1)[i] == s[i]);
        if i < k {
            assert(s.take(k)[i] == s[i]);
            assert(contains_coord(s.take(k), r, c));
        }
    }
    if contains_coord(s.take(k), r, c) {
        let i = choose|i: int|
            0 <= i < s.take(k).len() && (#[trigger] s.take(k)[i]).0 == r && s.take(k)[i].1 == c;
        assert(s.take(k)[i] == s[i]);
        assert(s.take(k + 1)[i] == s[i]);
        assert(contains_coord(s.take(k + 1), r, c));
    }
    if (s[k]).0 == r && s[k].1 == c {
        assert(s.take(k + 1)[k] == s[k]);
        assert(contains_coord(s.take(k + 1), r, c));
    }
}

/// The flat backing index is in range and distinct for distinct coordinates.
pub proof fn lemma_flat_bijective(rows: int, cols: int, r1: int, c1: int, r2: int, c2: int)
    by (nonlinear_arith)
    requires
        0 <= r1 < rows,
        0 <= c1 < cols,
        0 <= r2 < rows,
        0 <= c2 < cols,
    ensures
        0 <= r1 * cols + c1 < rows * cols,
        r1 * cols + c1 == r2 * cols + c2 ==> r1 == r2 && c1 == c2,
{
}

/// A flat backing index splits into the row-major coordinate it stands for.
pub proof fn lemma_flat_decompose(rows: int, cols: int, j: int)
    requires
        0 < rows,
        0 < cols,
        0 <= j < rows * cols,
    ensures
        0 <= j / cols < rows,
        0 <= j % cols < cols,
        (j / cols) * cols + (j % cols) == j,
{
    vstd::arithmetic::div_mod::lemma_fundamental_div_mod(j, cols);
    vstd::arithmetic::div_mod::lemma_mod_bound(j, cols);
    assert(j / cols < rows) by (nonlinear_arith)
        requires
            0 < cols,
            j < rows * cols,
            j == cols * (j / cols) + (j % cols),
            0 <= j % cols,
    ;
    assert(0 <= j / cols) by (nonlinear_arith)
        requires
            0 < cols,
            0 <= j,
            j == cols * (j / cols) + (j % cols),
            j % cols < cols,
    ;
    assert((j / cols) * cols + (j % cols) == j) by (nonlinear_arith)
        requires
            j == cols * (j / cols) + (j % cols),
    ;
}

/// The playing field: a dense rows x cols array of cells, row-major.
pub struct Grid {
    pub rows: usize,
    pub cols: usize,
    pub cells: Vec<Cell>,
}

impl Grid {
    /// Well-formed: both dimensions positive and the backing storage dense.
    pub open spec fn wf(self) -> bool {
        self.rows > 0 && self.cols > 0 && self.cells@.len() == self.rows * self.cols
    }

    pub open spec fn in_bounds(self, r: int, c: int) -> bool {
        0 <= r < self.rows && 0 <= c < self.cols
    }

    pub open spec fn flat(self, r: int, c: int) -> int {
        r * self.cols + c
    }

    pub open spec fn cell_at(self, r: int, c: int) -> Cell {
        self.cells@[self.flat(r, c)]
    }

    pub open spec fn bomb_at(self, r: int, c: int) -> bool {
        self.in_bounds(r, c) && self.cell_at(r, c).contents is Bomb
    }

    pub open spec fn zero_at(self, r: int, c: int) -> bool {
        self.in_bounds(r, c) && self.cell_at(r, c).contents == CellContents::Hint(0u32)
    }

    pub open spec fn revealed_at(self, r: int, c: int) -> bool {
        self.in_bounds(r, c) && self.cell_at(r, c).state is Revealed
    }

    /// The number of bombs among the in-bounds Moore neighbors of (r, c).
    pub open spec fn bomb_neighbor_count(self, r: int, c: int) -> int {
        b2i(self.bomb_at(r - 1, c - 1)) + b2i(self.bomb_at(r - 1, c)) + b2i(
            self.bomb_at(r - 1, c + 1),
        ) + b2i(self.bomb_at(r, c - 1)) + b2i(self.bomb_at(r, c + 1)) + b2i(
            self.bomb_at(r + 1, c - 1),
        ) + b2i(self.bomb_at(r + 1, c)) + b2i(self.bomb_at(r + 1, c + 1))
    }

    /// Every non-bomb square carries exactly its true neighbor-bomb count.
    pub open spec fn hints_accurate(self) -> bool {
        forall|r: int, c: int|
            self.in_bounds(r, c) && !((#[trigger] self.cell_at(r, c)).contents is Bomb)
                ==> self.cell_at(r, c).contents == CellContents::Hint(
                self.bomb_neighbor_count(r, c) as u32,
            )
    }

    /// A fresh grid: every cell hidden, every hint zero.
    pub fn new(size: (usize, usize)) -> (g: Grid)
        requires
            size.0 > 0,
            size.1 > 0,
            size.0 * size.1 <= usize::MAX,
        ensures
            g.wf(),
            g.rows == size.0,
            g.cols == size.1,
            forall|j: int|
                0 <= j < g.cells@.len() ==> #[trigger] g.cells@[j] == (Cell {
                    contents: CellContents::Hint(0u32),
                    state: CellState::Hidden,
                }),
            forall|r: int, c: int|
                g.in_bounds(r, c) ==> #[trigger] g.cell_at(r, c) == (Cell {
                    contents: CellContents::Hint(0u32),
                    state: CellState::Hidden,
                }),
    {
        let (rows, cols) = size;
        let n = rows * cols;
        let mut cells: Vec<Cell> = Vec::new();
        let mut i: usize = 0;
        while i < n
            invariant
                i <= n,
                cells@.len() == i,
                forall|j: int|
                    0 <= j < i ==> #[trigger] cells@[j] == (Cell {
                        contents: CellContents::Hint(0u32),
                        state: CellState::Hidden,
                    }),
            decreases n - i,
        {
            cells.push(Cell { contents: CellContents::Hint(0), state: CellState::Hidden });
            i = i + 1;
        }
        let g = Grid { rows, cols, cells };
        proof {
            assert forall|r: int, c: int| g.in_bounds(r, c) implies #[trigger] g.cell_at(r, c)
                == (Cell { contents: CellContents::Hint(0u32), state: CellState::Hidden }) by {
                lemma_flat_bijective(rows as int, cols as int, r, c, r, c);
            }
        }
        g
    }

    /// The grid's dimensions, (rows, cols).
    pub fn size(&self) -> (s: (usize, usize))
        ensures
            s.0 == self.rows,
            s.1 == self.cols,
    {
        (self.rows, self.cols)
    }

    /// Read the cell at an in-bounds coordinate.
    pub fn get(&self, index: (usize, usize)) -> (cell: Cell)
        requires
            self.wf(),
            self.in_bounds(index.0 as int, index.1 as int),
        ensures
            cell == self.cell_at(index.0 as int, index.1 as int),
    {
        proof {
            lemma_flat_bijective(
                self.rows as int,
                self.cols as int,
                index.0 as int,
                index.1 as int,
                index.0 as int,
                index.1 as int,
            );
        }
        let len = self.cells.len();
        self.cells[index.0 * self.cols + index.1]
    }

    /// Overwrite the cell at an in-bounds coordinate; every other cell keeps
    /// its value.
    pub(crate) fn set_cell(&mut self, index: (usize, usize), cell: Cell)
        requires
            old(self).wf(),
            old(self).in_bounds(index.0 as int, index.1 as int),
        ensures
            final(self).wf(),
            final(self).rows == old(self).rows,
            final(self).cols == old(self).cols,
            final(self).cells@ == old(self).cells@.update(
                old(self).flat(index.0 as int, index.1 as int),
                cell,
            ),
            forall|r: int, c: int|
                old(self).in_bounds(r, c) ==> #[trigger] final(self).cell_at(r, c) == (if r
                    == index.0 && c == index.1 {
                    cell
                } else {
                    old(self).cell_at(r, c)
                }),
    {
        proof {
            lemma_flat_bijective(
                self.rows as int,
                self.cols as int,
                index.0 as int,
                index.1 as int,
                index.0 as int,
                index.1 as int,
            );
        }
        let len = self.cells.len();
        let i = index.0 * self.cols + index.1;
        self.cells[i] = cell;
        proof {
            assert forall|r: int, c: int| old(self).in_bounds(r, c) implies #[trigger] self.cell_at(
                r,
                c,
            ) == (if r == index.0 && c == index.1 {
                cell
            } else {
                old(self).cell_at(r, c)
            }) by {
                lemma_flat_bijective(
                    self.rows as int,
                    self.cols as int,
                    r,
                    c,
                    index.0 as int,
                    index.1 as int,
                );
            }
        }
    }

    /// The in-bounds Moore neighborhood of (r, c): every in-bounds adjacent
    /// coordinate exactly once, and nothing else.
    pub fn neighbors(&self, index: (usize, usize)) -> (res: Vec<(usize, usize)>)
        requires
            self.wf(),
            self.in_bounds(index.0 as int, index.1 as int),
        ensures
            res@.len() == moore_count(
                self.rows as int,
                self.cols as int,
                index.0 as int,
                index.1 as int,
            ),
            forall|i: int|
                0 <= i < res@.len() ==> self.in_bounds(
                    (#[trigger] res@[i]).0 as int,
                    res@[i].1 as int,
                ) && adj(res@[i].0 as int, res@[i].1 as int, index.0 as int, index.1 as int),
            forall|r: int, c: int| #![trigger contains_coord(res@, r, c)]
                self.in_bounds(r, c) && adj(r, c, index.0 as int, index.1 as int)
                    ==> contains_coord(res@, r, c),
            forall|i: int, j: int| 0 <= i < j < res@.len() ==> res@[i] != res@[j],
    {
        let (r, c) = index;
        let mut res: Vec<(usize, usize)> = Vec::new();
        if r > 0 {
            res.push((r - 1, c));
            if c > 0 {
                res.push((r - 1, c - 1));
            }
            if c + 1 < self.cols {
                res.push((r - 1, c + 1));
            }
        }
        if c > 0 {
            res.push((r, c - 1));
        }
        if c + 1 < self.cols {
            res.push((r, c + 1));
        }
        if r + 1 < self.rows {
            res.push((r + 1, c));
            if c > 0 {
                res.push((r + 1, c - 1));
            }
            if c + 1 < self.cols {
                res.push((r + 1, c + 1));
            }
        }
        proof {
            assert forall|rr: int, cc: int|
                self.in_bounds(rr, cc) && adj(rr, cc, r as int, c as int) implies contains_coord(
                res@,
                rr,
                cc,
            ) by {
                let p = ((rr as usize), (cc as usize));
                assert(res@.contains(p));
                let i = choose|i: int| 0 <= i < res@.len() && res@[i] == p;
                assert((res@[i]).0 == rr && res@[i].1 == cc);
            }
        }
        res
    }

    /// Toggle the advisory flag: Hidden and Flagged exchange, Revealed is
    /// left alone. No contents and no other cell change.
    pub fn toggle_flag(&mut self, index: (usize, usize))
        requires
            old(self).wf(),
            old(self).in_bounds(index.0 as int, index.1 as int),
        ensures
            final(self).wf(),
            final(self).rows == old(self).rows,
            final(self).cols == old(self).cols,
            toggle_flag_post(*old(self), *final(self), index.0 as int, index.1 as int),
    {
        let cell = self.get(index);
        match cell.state {
            CellState::Revealed => (),
            CellState::Flagged => {
                self.set_cell(index, Cell { contents: cell.contents, state: CellState::Hidden });
            },
            CellState::Hidden => {
                self.set_cell(index, Cell { contents: cell.contents, state: CellState::Flagged });
            },
        }
    }

    /// Choose the rendering marker for the cell at (r, c).
    pub fn marker(&self, index: (usize, usize)) -> (m: Marker)
        requires
            self.wf(),
            self.in_bounds(index.0 as int, index.1 as int),
        ensures
            m == marker_spec(self.cell_at(index.0 as int, index.1 as int)),
    {
        marker_for(self.get(index))
    }
}

/// How a flag toggle at (tr, tc) relates the grid after (`post`) to the grid
/// before (`pre`): only that square's state changes, Hidden and Flagged
/// exchange, and a Revealed square stays exactly as it was.
pub open spec fn toggle_flag_post(pre: Grid, post: Grid, tr: int, tc: int) -> bool {
    &&& post.rows == pre.rows
    &&& post.cols == pre.cols
    &&& post.cells@.len() == pre.cells@.len()
    &&& forall|r: int, c: int|
        pre.in_bounds(r, c) ==> #[trigger] post.cell_at(r, c) == (if r == tr && c == tc {
            Cell {
                contents: pre.cell_at(r, c).contents,
                state: match pre.cell_at(r, c).state {
                    CellState::Hidden => CellState::Flagged,
                    CellState::Flagged => CellState::Hidden,
                    CellState::Revealed => CellState::Revealed,
                },
            }
        } else {
            pre.cell_at(r, c)
        })
}

} // verus!
