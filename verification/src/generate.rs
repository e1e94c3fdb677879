use vstd::prelude::*;

use rand::Rng;

use crate::cell::{Cell, CellContents};
use crate::count::{
    bombs_in, lemma_bombs_in_agree, lemma_bombs_in_flip, lemma_bombs_in_zero, total_bombs,
};
use crate::grid::{
    adj, b2i, contains_coord, lemma_contains_coord_take_succ, lemma_flat_bijective,
    lemma_flat_decompose, Grid,
};

verus! {

/// The three difficulty presets.
#[derive(Clone, Copy, Debug, PartialEq, Eq, Structural)]
pub enum Difficulty {
    Beginner,
    Intermediate,
    Expert,
}

/// A board configuration: (rows, cols) and the number of bombs to place.
#[derive(Clone, Copy, Debug)]
pub struct Config {
    pub size: (usize, usize),
    pub num_bombs: u32,
}

/// The board shape each preset stands for.
pub open spec fn config_of(d: Difficulty) -> Config {
    match d {
        Difficulty::Beginner => Config { size: (9, 9), num_bombs: 10 },
        Difficulty::Intermediate => Config { size: (16, 16), num_bombs: 40 },
        Difficulty::Expert => Config { size: (16, 30), num_bombs: 99 },
    }
}

/// A configuration a board can actually be generated from: both dimensions
/// positive, the cell count within the machine's reach, and fewer bombs than
/// cells.
pub open spec fn valid_config(c: Config) -> bool {
    &&& c.size.0 > 0
    &&& c.size.1 > 0
    &&& c.size.0 * c.size.1 <= usize::MAX
    &&& (c.num_bombs as int) < c.size.0 * c.size.1
}

impl Config {
    /// The preset's rows, columns and bomb count.
    pub fn from(value: &Difficulty) -> (c: Config)
        ensures
            c == config_of(*value),
    {
        match value {
            Difficulty::Beginner => Config { size: (9, 9), num_bombs: 10 },
            Difficulty::Intermediate => Config { size: (16, 16), num_bombs: 40 },
            Difficulty::Expert => Config { size: (16, 30), num_bombs: 99 },
        }
    }

    /// Decide whether a board can be generated from this configuration.
    pub fn is_valid(&self) -> (b: bool)
        ensures
            b == valid_config(*self),
    {
        let (r, c) = self.size;
        if r == 0 || c == 0 {
            return false;
        }
        match r.checked_mul(c) {
            None => false,
            Some(total) => (self.num_bombs as usize) < total,
        }
    }
}

/// Relies on rand::Rng::gen_range on rand::rngs::ThreadRng: a uniformly
/// distributed value in [0, bound); it panics only on an empty range.
#[verifier::external_body]
fn random_below(bound: usize) -> (r: usize)
    requires
        bound > 0,
    ensures
        r < bound,
{
    rand::thread_rng().gen_range(0..bound)
}

/// Making the square at (ti, tj) a bomb raises a square's neighbor-bomb
/// count by one exactly where (ti, tj) is one of its neighbors.
proof fn lemma_neighbor_count_after_bomb(a: Grid, b: Grid, ti: int, tj: int)
    requires
        b.rows == a.rows,
        b.cols == a.cols,
        a.in_bounds(ti, tj),
        !a.bomb_at(ti, tj),
        forall|r: int, c: int|
            a.in_bounds(r, c) ==> (b.bomb_at(r, c) <==> a.bomb_at(r, c) || (r == ti && c == tj)),
    ensures
        forall|r: int, c: int| #![trigger b.bomb_neighbor_count(r, c)]
            b.bomb_neighbor_count(r, c) == a.bomb_neighbor_count(r, c) + b2i(adj(r, c, ti, tj)),
{
    assert forall|r: int, c: int| #![trigger b.bomb_neighbor_count(r, c)]
        b.bomb_neighbor_count(r, c) == a.bomb_neighbor_count(r, c) + b2i(
        adj(r, c, ti, tj),
    ) by {
        assert(b.bomb_at(r - 1, c - 1) == (a.bomb_at(r - 1, c - 1) || (r - 1 == ti && c - 1
            == tj)));
        assert(b.bomb_at(r - 1, c) == (a.bomb_at(r - 1, c) || (r - 1 == ti && c == tj)));
        assert(b.bomb_at(r - 1, c + 1) == (a.bomb_at(r - 1, c + 1) || (r - 1 == ti && c + 1
            == tj)));
        assert(b.bomb_at(r, c - 1) == (a.bomb_at(r, c - 1) || (r == ti && c - 1 == tj)));
        assert(b.bomb_at(r, c + 1) == (a.bomb_at(r, c + 1) || (r == ti && c + 1 == tj)));
        assert(b.bomb_at(r + 1, c - 1) == (a.bomb_at(r + 1, c - 1) || (r + 1 == ti && c - 1
            == tj)));
        assert(b.bomb_at(r + 1, c) == (a.bomb_at(r + 1, c) || (r + 1 == ti && c == tj)));
        assert(b.bomb_at(r + 1, c + 1) == (a.bomb_at(r + 1, c + 1) || (r + 1 == ti && c + 1
            == tj)));
    }
}

impl Grid {
    /// Turn the non-bomb square at `index` into a bomb and raise the hint of
    /// each of its non-bomb neighbors by one, so that every hint stays
    /// accurate. Visibility state is untouched everywhere.
    #[verifier::loop_isolation(false)]
    #[verifier::rlimit(60)]
    pub fn place_bomb(&mut self, index: (usize, usize))
        requires
            old(self).wf(),
            old(self).in_bounds(index.0 as int, index.1 as int),
            !old(self).bomb_at(index.0 as int, index.1 as int),
            old(self).hints_accurate(),
        ensures
            final(self).wf(),
            final(self).rows == old(self).rows,
            final(self).cols == old(self).cols,
            final(self).hints_accurate(),
            forall|r: int, c: int|
                old(self).in_bounds(r, c) ==> (#[trigger] final(self).cell_at(r, c)).state == old(
                    self,
                ).cell_at(r, c).state,
            forall|r: int, c: int|
                old(self).in_bounds(r, c) ==> (final(self).bomb_at(r, c) <==> old(self).bomb_at(
                    r,
                    c,
                ) || (r == index.0 && c == index.1)),
            total_bombs(*final(self)) == total_bombs(*old(self)) + 1,
    {
        let ghost g0 = *old(self);
        let ghost ti = index.0 as int;
        let ghost tj = index.1 as int;
        let cell = self.get(index);
        self.set_cell(index, Cell { contents: CellContents::Bomb, state: cell.state });
        let ghost g1 = *self;
        proof {
            lemma_flat_bijective(g0.rows as int, g0.cols as int, ti, tj, ti, tj);
            lemma_bombs_in_flip(g0.cells@, g1.cells@, g0.flat(ti, tj), g0.cells@.len() as int);
        }
        let nbrs = self.neighbors(index);
        let mut k: usize = 0;
        while k < nbrs.len()
            invariant
                k <= nbrs.len(),
                self.wf(),
                self.rows == g0.rows,
                self.cols == g0.cols,
                self.cells@.len() == g1.cells@.len(),
                forall|j: int|
                    0 <= j < self.cells@.len() ==> ((#[trigger] self.cells@[j]).contents is Bomb)
                        == ((#[trigger] g1.cells@[j]).contents is Bomb),
                forall|r: int, c: int|
                    g0.in_bounds(r, c) ==> (#[trigger] self.cell_at(r, c)).state == g0.cell_at(
                        r,
                        c,
                    ).state,
                forall|r: int, c: int|
                    g0.in_bounds(r, c) ==> (self.bomb_at(r, c) <==> g0.bomb_at(r, c) || (r == ti
                        && c == tj)),
                forall|r: int, c: int|
                    g0.in_bounds(r, c) && !self.bomb_at(r, c) ==> (#[trigger] self.cell_at(
                        r,
                        c,
                    )).contents == (if contains_coord(nbrs@.take(k as int), r, c) {
                        CellContents::Hint((g0.bomb_neighbor_count(r, c) + 1) as u32)
                    } else {
                        g0.cell_at(r, c).contents
                    }),
            decreases nbrs.len() - k,
        {
            let (nr, nc) = nbrs[k];
            let ghost pre = *self;
            let ncell = self.get((nr, nc));
            proof {
                assert(!contains_coord(nbrs@.take(k as int), nr as int, nc as int)) by {
                    if contains_coord(nbrs@.take(k as int), nr as int, nc as int) {
                        let i = choose|i: int|
                            0 <= i < nbrs@.take(k as int).len() && (#[trigger] nbrs@.take(
                                k as int,
                            )[i]).0 == nr as int && nbrs@.take(k as int)[i].1 == nc as int;
                        assert(nbrs@.take(k as int)[i] == nbrs@[i]);
                        assert(nbrs@[i] == nbrs@[k as int]);
                        assert(false);
                    }
                }
            }
            match ncell.contents {
                CellContents::Hint(h) => {
                    proof {
                        assert(!pre.bomb_at(nr as int, nc as int));
                        assert(!g0.bomb_at(nr as int, nc as int));
                        assert(g0.cell_at(nr as int, nc as int).contents == CellContents::Hint(
                            g0.bomb_neighbor_count(nr as int, nc as int) as u32,
                        ));
                        assert(h == g0.bomb_neighbor_count(nr as int, nc as int));
                        assert(h <= 8);
                        lemma_flat_bijective(
                            g0.rows as int,
                            g0.cols as int,
                            nr as int,
                            nc as int,
                            nr as int,
                            nc as int,
                        );
                    }
                    self.set_cell(
                        (nr, nc),
                        Cell { contents: CellContents::Hint(h + 1), state: ncell.state },
                    );
                    proof {
                        assert forall|r: int, c: int|
                            g0.in_bounds(r, c) && !self.bomb_at(r, c) implies (
                        #[trigger] self.cell_at(r, c)).contents == (if contains_coord(
                            nbrs@.take(k as int + 1),
                            r,
                            c,
                        ) {
                            CellContents::Hint((g0.bomb_neighbor_count(r, c) + 1) as u32)
                        } else {
                            g0.cell_at(r, c).contents
                        }) by {
                            lemma_contains_coord_take_succ(nbrs@, k as int, r, c);
                            if !(r == nr && c == nc) {
                                assert(self.cell_at(r, c) == pre.cell_at(r, c));
                            }
                        }
                    }
                },
                CellContents::Bomb => {
                    proof {
                        assert forall|r: int, c: int|
                            g0.in_bounds(r, c) && !self.bomb_at(r, c) implies (
                        #[trigger] self.cell_at(r, c)).contents == (if contains_coord(
                            nbrs@.take(k as int + 1),
                            r,
                            c,
                        ) {
                            CellContents::Hint((g0.bomb_neighbor_count(r, c) + 1) as u32)
                        } else {
                            g0.cell_at(r, c).contents
                        }) by {
                            lemma_contains_coord_take_succ(nbrs@, k as int, r, c);
                            if r == nr && c == nc {
                                assert(self.bomb_at(r, c));
                            }
                        }
                    }
                },
            }
            k = k + 1;
        }
        proof {
            assert(nbrs@.take(k as int) =~= nbrs@);
            lemma_bombs_in_agree(g1.cells@, self.cells@, g1.cells@.len() as int);
            lemma_neighbor_count_after_bomb(g0, *self, ti, tj);
            assert forall|r: int, c: int|
                g0.in_bounds(r, c) && !((#[trigger] self.cell_at(r, c)).contents is Bomb) implies
            self.cell_at(r, c).contents == CellContents::Hint(
                self.bomb_neighbor_count(r, c) as u32,
            ) by {
                if adj(r, c, ti, tj) {
                    assert(g1.in_bounds(r, c));
                    assert(adj(r, c, index.0 as int, index.1 as int));
                    assert(contains_coord(nbrs@, r, c));
                } else {
                    assert(!contains_coord(nbrs@, r, c)) by {
                        if contains_coord(nbrs@, r, c) {
                            let i = choose|i: int|
                                0 <= i < nbrs@.len() && (#[trigger] nbrs@[i]).0 == r && nbrs@[i].1
                                    == c;
                            assert(adj(nbrs@[i].0 as int, nbrs@[i].1 as int, ti, tj));
                            assert(false);
                        }
                    }
                }
            }
        }
    }
}

/// Find the (k+1)-th bomb-free square in row-major order. It exists because
/// the board holds fewer bombs than k leaves room for.
#[verifier::loop_isolation(false)]
fn kth_free(grid: &Grid, k: usize) -> (rc: (usize, usize))
    requires
        grid.wf(),
        k + total_bombs(*grid) < grid.cells@.len(),
    ensures
        grid.in_bounds(rc.0 as int, rc.1 as int),
        !grid.bomb_at(rc.0 as int, rc.1 as int),
{
    let n = grid.cells.len();
    let mut j: usize = 0;
    let mut seen: usize = 0;
    while j < n
        invariant
            j <= n,
            seen <= k,
            seen as int == j - bombs_in(grid.cells@, j as int),
        decreases n - j,
    {
        let cell = grid.cells[j];
        let is_bomb = match cell.contents {
            CellContents::Bomb => true,
            _ => false,
        };
        if !is_bomb {
            if seen == k {
                proof {
                    lemma_flat_decompose(grid.rows as int, grid.cols as int, j as int);
                }
                let r = j / grid.cols;
                let c = j % grid.cols;
                return (r, c);
            }
            seen = seen + 1;
        }
        j = j + 1;
    }
    proof {
        assert(false);
    }
    (0, 0)
}

/// Place `num_bombs` bombs, each drawn uniformly at random among the squares
/// that hold none yet, and keep every non-bomb square's hint equal to its
/// true neighbor-bomb count. Visibility state is untouched.
#[verifier::loop_isolation(false)]
pub fn place_bombs_rnd(grid: &mut Grid, num_bombs: u32)
    requires
        old(grid).wf(),
        (num_bombs as int) < old(grid).rows * old(grid).cols,
        forall|j: int|
            0 <= j < old(grid).cells@.len() ==> (#[trigger] old(grid).cells@[j]).contents
                == CellContents::Hint(0u32),
    ensures
        final(grid).wf(),
        final(grid).rows == old(grid).rows,
        final(grid).cols == old(grid).cols,
        forall|r: int, c: int|
            old(grid).in_bounds(r, c) ==> (#[trigger] final(grid).cell_at(r, c)).state == old(
                grid,
            ).cell_at(r, c).state,
        total_bombs(*final(grid)) == num_bombs,
        final(grid).hints_accurate(),
{
    let ghost g0 = *old(grid);
    proof {
        lemma_bombs_in_zero(g0.cells@, g0.cells@.len() as int);
        assert forall|r: int, c: int| g0.in_bounds(r, c) implies !g0.bomb_at(r, c) && (
        #[trigger] g0.cell_at(r, c)).contents == CellContents::Hint(0u32) by {
            lemma_flat_bijective(g0.rows as int, g0.cols as int, r, c, r, c);
        }
        assert(g0.hints_accurate());
    }
    let mut placed: u32 = 0;
    while placed < num_bombs
        invariant
            placed <= num_bombs,
            grid.wf(),
            grid.rows == g0.rows,
            grid.cols == g0.cols,
            forall|r: int, c: int|
                g0.in_bounds(r, c) ==> (#[trigger] grid.cell_at(r, c)).state == g0.cell_at(
                    r,
                    c,
                ).state,
            total_bombs(*grid) == placed,
            grid.hints_accurate(),
        decreases num_bombs - placed,
    {
        let n = grid.cells.len();
        let free = n - (placed as usize);
        let k = random_below(free);
        let rc = kth_free(grid, k);
        grid.place_bomb(rc);
        placed = placed + 1;
    }
}

/// Build and populate a board from a configuration, rejecting one that no
/// board can be generated from.
pub fn generate(config: &Config) -> (res: Option<Grid>)
    ensures
        res is Some <==> valid_config(*config),
        res matches Some(g) ==> g.wf() && g.rows == config.size.0 && g.cols == config.size.1
            && total_bombs(g) == config.num_bombs && g.hints_accurate() && (forall|r: int, c: int|
            g.in_bounds(r, c) ==> (#[trigger] g.cell_at(r, c)).state is Hidden),
{
    if !config.is_valid() {
        return None;
    }
    let mut g = Grid::new(config.size);
    place_bombs_rnd(&mut g, config.num_bombs);
    Some(g)
}

/// Start a new game at the given difficulty: a fully generated board with
/// every square hidden.
pub fn new_game(d: &Difficulty) -> (g: Grid)
    ensures
        g.wf(),
        g.rows == config_of(*d).size.0,
        g.cols == config_of(*d).size.1,
        total_bombs(g) == config_of(*d).num_bombs,
        g.hints_accurate(),
        forall|r: int, c: int|
            g.in_bounds(r, c) ==> (#[trigger] g.cell_at(r, c)).state is Hidden,
{
    let config = Config::from(d);
    proof {
        match *d {
            Difficulty::Beginner => {},
            Difficulty::Intermediate => {},
            Difficulty::Expert => {},
        }
        assert(valid_config(config));
    }
    let mut g = Grid::new(config.size);
    place_bombs_rnd(&mut g, config.num_bombs);
    g
}

} // verus!
