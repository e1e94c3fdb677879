use vstd::prelude::*;

use crate::cell::{Cell, CellContents, CellState};
use crate::count::{hidden_in, lemma_hidden_in_flip, lemma_hidden_in_nonneg};
use crate::grid::{adj, contains_coord, Grid};

verus! {

/// A flood-fill path in `g`: at least one coordinate, every coordinate in
/// bounds, consecutive coordinates adjacent, every coordinate before the
/// last a zero-hint square, and every coordinate strictly between the ends
/// not yet revealed.
pub open spec fn flood_path(g: Grid, path: Seq<(int, int)>) -> bool {
    &&& path.len() >= 1
    &&& forall|i: int| 0 <= i < path.len() ==> g.in_bounds((#[trigger] path[i]).0, path[i].1)
    &&& forall|i: int|
        0 <= i < path.len() - 1 ==> adj(
            (#[trigger] path[i]).0,
            path[i].1,
            path[i + 1].0,
            path[i + 1].1,
        )
    &&& forall|i: int| 0 <= i < path.len() - 1 ==> g.zero_at((#[trigger] path[i]).0, path[i].1)
    &&& forall|i: int| 1 <= i < path.len() - 1 ==> !g.revealed_at((#[trigger] path[i]).0, path[i].1)
}

/// A reveal whose target is (sr, sc) reaches (r, c): some flood path leads
/// from the target there.
pub open spec fn reveals_to(g: Grid, sr: int, sc: int, r: int, c: int) -> bool {
    exists|path: Seq<(int, int)>|
        flood_path(g, path) && path.first() == (sr, sc) && path.last() == (r, c)
}

/// How a reveal at (tr, tc) relates the grid after (`post`) to the grid
/// before (`pre`): contents are kept everywhere, the revealed squares are
/// exactly those revealed before plus those a flood path from the target
/// reaches, and every other square keeps its state.
pub open spec fn reveal_post(pre: Grid, post: Grid, tr: int, tc: int) -> bool {
    &&& post.rows == pre.rows
    &&& post.cols == pre.cols
    &&& post.cells@.len() == pre.cells@.len()
    &&& forall|r: int, c: int|
        pre.in_bounds(r, c) ==> #[trigger] post.cell_at(r, c) == (Cell {
            contents: pre.cell_at(r, c).contents,
            state: if pre.revealed_at(r, c) || reveals_to(pre, tr, tc, r, c) {
                CellState::Revealed
            } else {
                pre.cell_at(r, c).state
            },
        })
}

/// The target itself is always reached, by the one-coordinate path.
pub proof fn lemma_reveals_to_self(g: Grid, sr: int, sc: int)
    requires
        g.in_bounds(sr, sc),
    ensures
        reveals_to(g, sr, sc, sr, sc),
{
    let path: Seq<(int, int)> = seq![(sr, sc)];
    assert(flood_path(g, path));
    assert(path.first() == (sr, sc) && path.last() == (sr, sc));
}

/// A reached zero square that was not revealed before (or is the target
/// itself) passes the flood on to each of its in-bounds neighbors.
pub proof fn lemma_reveals_to_extend(
    g: Grid,
    sr: int,
    sc: int,
    pr: int,
    pc: int,
    nr: int,
    nc: int,
)
    requires
        reveals_to(g, sr, sc, pr, pc),
        g.zero_at(pr, pc),
        (pr == sr && pc == sc) || !g.revealed_at(pr, pc),
        g.in_bounds(nr, nc),
        adj(pr, pc, nr, nc),
    ensures
        reveals_to(g, sr, sc, nr, nc),
{
    if pr == sr && pc == sc {
        let path: Seq<(int, int)> = seq![(sr, sc), (nr, nc)];
        assert(flood_path(g, path));
        assert(path.first() == (sr, sc) && path.last() == (nr, nc));
    } else {
        let path = choose|path: Seq<(int, int)>|
            flood_path(g, path) && path.first() == (sr, sc) && path.last() == (pr, pc);
        let ext = path.push((nr, nc));
        assert forall|i: int| 0 <= i < ext.len() implies g.in_bounds(
            (#[trigger] ext[i]).0,
            ext[i].1,
        ) by {
            if i < path.len() {
                assert(ext[i] == path[i]);
            }
        }
        assert forall|i: int| 0 <= i < ext.len() - 1 implies adj(
            (#[trigger] ext[i]).0,
            ext[i].1,
            ext[i + 1].0,
            ext[i + 1].1,
        ) by {
            assert(ext[i] == path[i]);
            if i < path.len() - 1 {
                assert(ext[i + 1] == path[i + 1]);
            } else {
                assert(path[i] == path.last());
                assert(ext[i + 1] == (nr, nc));
            }
        }
        assert forall|i: int| 0 <= i < ext.len() - 1 implies g.zero_at(
            (#[trigger] ext[i]).0,
            ext[i].1,
        ) by {
            assert(ext[i] == path[i]);
            if i == path.len() - 1 {
                assert(path[i] == path.last());
            }
        }
        assert forall|i: int| 1 <= i < ext.len() - 1 implies !g.revealed_at(
            (#[trigger] ext[i]).0,
            ext[i].1,
        ) by {
            assert(ext[i] == path[i]);
            if i == path.len() - 1 {
                assert(path[i] == path.last());
            }
        }
        assert(flood_path(g, ext));
        assert(ext.first() == (sr, sc) && ext.last() == (nr, nc));
    }
}

/// A reveal whose target is no zero-hint square reaches nothing beyond the
/// target itself.
pub proof fn lemma_nonzero_no_flood(g: Grid, sr: int, sc: int)
    requires
        !g.zero_at(sr, sc),
    ensures
        forall|r: int, c: int| reveals_to(g, sr, sc, r, c) ==> r == sr && c == sc,
{
    assert forall|r: int, c: int| reveals_to(g, sr, sc, r, c) implies r == sr && c == sc by {
        let path = choose|path: Seq<(int, int)>|
            flood_path(g, path) && path.first() == (sr, sc) && path.last() == (r, c);
        if path.len() >= 2 {
            assert(g.zero_at(path[0].0, path[0].1));
            assert(false);
        } else {
            assert(path.last() == path.first());
        }
    }
}

/// Once the worklist is empty, every square a flood path reaches has been
/// revealed: by induction on the path, each step leads from a revealed,
/// newly flooded zero square to a neighbor the closed frontier has covered.
proof fn lemma_flood_complete_path(g0: Grid, g: Grid, sr: int, sc: int, path: Seq<(int, int)>)
    requires
        g.rows == g0.rows,
        g.cols == g0.cols,
        forall|r: int, c: int|
            g0.in_bounds(r, c) ==> (#[trigger] g.cell_at(r, c)).contents == g0.cell_at(
                r,
                c,
            ).contents,
        g.revealed_at(sr, sc),
        forall|qr: int, qc: int, nr: int, nc: int|
            g.revealed_at(qr, qc) && g0.zero_at(qr, qc) && ((qr == sr && qc == sc)
                || !g0.revealed_at(qr, qc)) && g0.in_bounds(nr, nc) && #[trigger] adj(
                qr,
                qc,
                nr,
                nc,
            ) ==> g.revealed_at(nr, nc),
        flood_path(g0, path),
        path.first() == (sr, sc),
    ensures
        g.revealed_at(path.last().0, path.last().1),
    decreases path.len(),
{
    if path.len() == 1 {
        assert(path.last() == path.first());
    } else {
        let pre = path.drop_last();
        assert(pre.len() == path.len() - 1);
        assert forall|i: int| 0 <= i < pre.len() implies #[trigger] pre[i] == path[i] by {}
        assert(flood_path(g0, pre));
        assert(pre.first() == (sr, sc));
        lemma_flood_complete_path(g0, g, sr, sc, pre);
        let q = pre.last();
        let t = path.last();
        assert(q == path[path.len() - 2]);
        assert(g0.zero_at(q.0, q.1));
        if path.len() - 2 >= 1 {
            assert(!g0.revealed_at(q.0, q.1));
        } else {
            assert(q == path.first());
        }
        assert(adj(q.0, q.1, t.0, t.1));
        assert(g0.in_bounds(t.0, t.1));
        assert(g.revealed_at(t.0, t.1));
    }
}

impl Grid {
    /// Reveal the square at `index`, and, if it is a zero-hint square, flood
    /// outward: every not-yet-revealed square that a chain of adjacent,
    /// unrevealed zero-hint squares leads to is revealed as well, the
    /// non-zero rim included; nothing beyond is touched.
    pub fn reveal_cell(&mut self, index: (usize, usize))
        requires
            old(self).wf(),
            old(self).in_bounds(index.0 as int, index.1 as int),
        ensures
            final(self).wf(),
            final(self).revealed_at(index.0 as int, index.1 as int),
            reveal_post(*old(self), *final(self), index.0 as int, index.1 as int),
    {
        let (sr, sc) = index;
        let ghost g0 = *old(self);
        let cell = self.get(index);
        self.set_cell(index, Cell { contents: cell.contents, state: CellState::Revealed });
        proof {
            lemma_reveals_to_self(g0, sr as int, sc as int);
        }
        let is_zero = match cell.contents {
            CellContents::Hint(0) => true,
            _ => false,
        };
        if !is_zero {
            proof {
                lemma_nonzero_no_flood(g0, sr as int, sc as int);
                assert forall|r: int, c: int| g0.in_bounds(r, c) implies #[trigger] self.cell_at(
                    r,
                    c,
                ) == (Cell {
                    contents: g0.cell_at(r, c).contents,
                    state: if g0.revealed_at(r, c) || reveals_to(g0, sr as int, sc as int, r, c) {
                        CellState::Revealed
                    } else {
                        g0.cell_at(r, c).state
                    },
                }) by {}
            }
            return ;
        }
        let mut stack = self.neighbors(index);
        proof {
            assert forall|i: int| 0 <= i < stack@.len() implies g0.in_bounds(
                (#[trigger] stack@[i]).0 as int,
                stack@[i].1 as int,
            ) && reveals_to(g0, sr as int, sc as int, stack@[i].0 as int, stack@[i].1 as int) by {
                lemma_reveals_to_extend(
                    g0,
                    sr as int,
                    sc as int,
                    sr as int,
                    sc as int,
                    stack@[i].0 as int,
                    stack@[i].1 as int,
                );
            }
            assert forall|qr: int, qc: int, nr: int, nc: int|
                self.revealed_at(qr, qc) && g0.zero_at(qr, qc) && ((qr == sr && qc == sc)
                    || !g0.revealed_at(qr, qc)) && g0.in_bounds(nr, nc) && #[trigger] adj(
                    qr,
                    qc,
                    nr,
                    nc,
                ) implies self.revealed_at(nr, nc) || contains_coord(stack@, nr, nc) by {
                if qr == sr && qc == sc {
                    assert(self.in_bounds(nr, nc));
                    assert(adj(nr, nc, sr as int, sc as int));
                    assert(contains_coord(stack@, nr, nc));
                } else {
                    assert(self.cell_at(qr, qc) == g0.cell_at(qr, qc));
                    assert(false);
                }
            }
        }
        while stack.len() > 0
            invariant
                self.wf(),
                g0.wf(),
                self.rows == g0.rows,
                self.cols == g0.cols,
                self.cells@.len() == g0.cells@.len(),
                g0.zero_at(sr as int, sc as int),
                self.revealed_at(sr as int, sc as int),
                forall|r: int, c: int|
                    g0.in_bounds(r, c) ==> (#[trigger] self.cell_at(r, c)).contents == g0.cell_at(
                        r,
                        c,
                    ).contents,
                forall|r: int, c: int|
                    g0.in_bounds(r, c) && !self.revealed_at(r, c) ==> #[trigger] self.cell_at(r, c)
                        == g0.cell_at(r, c),
                forall|r: int, c: int|
                    g0.revealed_at(r, c) ==> #[trigger] self.revealed_at(r, c),
                forall|r: int, c: int|
                    #[trigger] self.revealed_at(r, c) ==> g0.revealed_at(r, c) || reveals_to(
                        g0,
                        sr as int,
                        sc as int,
                        r,
                        c,
                    ),
                forall|i: int|
                    0 <= i < stack@.len() ==> g0.in_bounds(
                        (#[trigger] stack@[i]).0 as int,
                        stack@[i].1 as int,
                    ) && reveals_to(g0, sr as int, sc as int, stack@[i].0 as int, stack@[i].1 as int),
                forall|qr: int, qc: int, nr: int, nc: int|
                    self.revealed_at(qr, qc) && g0.zero_at(qr, qc) && ((qr == sr && qc == sc)
                        || !g0.revealed_at(qr, qc)) && g0.in_bounds(nr, nc) && #[trigger] adj(
                        qr,
                        qc,
                        nr,
                        nc,
                    ) ==> self.revealed_at(nr, nc) || contains_coord(stack@, nr, nc),
            decreases hidden_in(self.cells@, self.cells@.len() as int), stack@.len(),
        {
            let ghost pre_grid = *self;
            let ghost pre_stack = stack@;
            proof {
                lemma_hidden_in_nonneg(self.cells@, self.cells@.len() as int);
            }
            let p = stack.pop().unwrap();
            let cell = self.get(p);
            let is_rev = match cell.state {
                CellState::Revealed => true,
                _ => false,
            };
            if !is_rev {
                self.set_cell(p, Cell { contents: cell.contents, state: CellState::Revealed });
                proof {
                    crate::grid::lemma_flat_bijective(
                        g0.rows as int,
                        g0.cols as int,
                        p.0 as int,
                        p.1 as int,
                        p.0 as int,
                        p.1 as int,
                    );
                    let i = pre_grid.flat(p.0 as int, p.1 as int);
                    assert(pre_grid.cells@[i] == pre_grid.cell_at(p.0 as int, p.1 as int));
                    assert(!(pre_grid.cells@[i].state is Revealed));
                    assert(self.cells@[i].state is Revealed);
                    lemma_hidden_in_flip(
                        pre_grid.cells@,
                        self.cells@,
                        pre_grid.flat(p.0 as int, p.1 as int),
                        self.cells@.len() as int,
                    );
                    lemma_hidden_in_nonneg(self.cells@, self.cells@.len() as int);
                    assert(hidden_in(self.cells@, self.cells@.len() as int) < hidden_in(
                        pre_grid.cells@,
                        pre_grid.cells@.len() as int,
                    ));
                }
                let is_zero = match cell.contents {
                    CellContents::Hint(0) => true,
                    _ => false,
                };
                if is_zero {
                    let mut nbrs = self.neighbors(p);
                    proof {
                        assert forall|i: int| 0 <= i < nbrs@.len() implies g0.in_bounds(
                            (#[trigger] nbrs@[i]).0 as int,
                            nbrs@[i].1 as int,
                        ) && reveals_to(
                            g0,
                            sr as int,
                            sc as int,
                            nbrs@[i].0 as int,
                            nbrs@[i].1 as int,
                        ) by {
                            lemma_reveals_to_extend(
                                g0,
                                sr as int,
                                sc as int,
                                p.0 as int,
                                p.1 as int,
                                nbrs@[i].0 as int,
                                nbrs@[i].1 as int,
                            );
                        }
                    }
                    let ghost nbrs_snap = nbrs@;
                    stack.append(&mut nbrs);
                    proof {
                        assert forall|qr: int, qc: int, nr: int, nc: int|
                            self.revealed_at(qr, qc) && g0.zero_at(qr, qc) && ((qr == sr && qc
                                == sc) || !g0.revealed_at(qr, qc)) && g0.in_bounds(nr, nc)
                                && #[trigger] adj(qr, qc, nr, nc) implies self.revealed_at(nr, nc)
                            || contains_coord(stack@, nr, nc) by {
                            if qr == p.0 && qc == p.1 {
                                assert(self.in_bounds(nr, nc));
                                assert(adj(nr, nc, p.0 as int, p.1 as int));
                                assert(contains_coord(nbrs_snap, nr, nc));
                                let i = choose|i: int|
                                    0 <= i < nbrs_snap.len() && (#[trigger] nbrs_snap[i]).0 == nr
                                        && nbrs_snap[i].1 == nc;
                                assert(stack@[pre_stack.len() - 1 + i] == nbrs_snap[i]);
                                assert(contains_coord(stack@, nr, nc));
                            } else {
                                if pre_grid.revealed_at(qr, qc) {
                                    if !self.revealed_at(nr, nc) && !contains_coord(
                                        stack@,
                                        nr,
                                        nc,
                                    ) {
                                        assert(contains_coord(pre_stack, nr, nc));
                                        let i = choose|i: int|
                                            0 <= i < pre_stack.len() && (#[trigger] pre_stack[i]).0
                                                == nr && pre_stack[i].1 == nc;
                                        if i < pre_stack.len() - 1 {
                                            assert(stack@[i] == pre_stack[i]);
                                            assert(contains_coord(stack@, nr, nc));
                                        } else {
                                            assert(pre_stack[i] == (p.0, p.1));
                                            assert(self.revealed_at(nr, nc));
                                        }
                                        assert(false);
                                    }
                                } else {
                                    assert(self.cell_at(qr, qc) == pre_grid.cell_at(qr, qc));
                                    assert(false);
                                }
                            }
                        }
                    }
                } else {
                    proof {
                        assert forall|qr: int, qc: int, nr: int, nc: int|
                            self.revealed_at(qr, qc) && g0.zero_at(qr, qc) && ((qr == sr && qc
                                == sc) || !g0.revealed_at(qr, qc)) && g0.in_bounds(nr, nc)
                                && #[trigger] adj(qr, qc, nr, nc) implies self.revealed_at(nr, nc)
                            || contains_coord(stack@, nr, nc) by {
                            if qr == p.0 && qc == p.1 {
                                assert(!g0.zero_at(qr, qc));
                            } else {
                                if pre_grid.revealed_at(qr, qc) {
                                    if !pre_grid.revealed_at(nr, nc) && !contains_coord(
                                        stack@,
                                        nr,
                                        nc,
                                    ) {
                                        assert(contains_coord(pre_stack, nr, nc));
                                        let i = choose|i: int|
                                            0 <= i < pre_stack.len() && (#[trigger] pre_stack[i]).0
                                                == nr && pre_stack[i].1 == nc;
                                        if i < pre_stack.len() - 1 {
                                            assert(stack@[i] == pre_stack[i]);
                                            assert(contains_coord(stack@, nr, nc));
                                        } else {
                                            assert(pre_stack[i] == (p.0, p.1));
                                            assert(self.revealed_at(nr, nc));
                                        }
                                    }
                                } else {
                                    assert(qr == p.0 && qc == p.1);
                                }
                            }
                        }
                    }
                }
            } else {
                proof {
                    assert forall|qr: int, qc: int, nr: int, nc: int|
                        self.revealed_at(qr, qc) && g0.zero_at(qr, qc) && ((qr == sr && qc == sc)
                            || !g0.revealed_at(qr, qc)) && g0.in_bounds(nr, nc) && #[trigger] adj(
                            qr,
                            qc,
                            nr,
                            nc,
                        ) implies self.revealed_at(nr, nc) || contains_coord(stack@, nr, nc) by {
                        if !self.revealed_at(nr, nc) && !contains_coord(stack@, nr, nc) {
                            assert(contains_coord(pre_stack, nr, nc));
                            let i = choose|i: int|
                                0 <= i < pre_stack.len() && (#[trigger] pre_stack[i]).0 == nr
                                    && pre_stack[i].1 == nc;
                            if i < pre_stack.len() - 1 {
                                assert(stack@[i] == pre_stack[i]);
                                assert(contains_coord(stack@, nr, nc));
                            } else {
                                assert(pre_stack[i] == (p.0, p.1));
                                assert(self.revealed_at(nr, nc));
                            }
                        }
                    }
                }
            }
        }
        proof {
            assert forall|r: int, c: int|
                g0.in_bounds(r, c) && reveals_to(g0, sr as int, sc as int, r, c) implies
            self.revealed_at(r, c) by {
                let path = choose|path: Seq<(int, int)>|
                    flood_path(g0, path) && path.first() == (sr as int, sc as int) && path.last()
                        == (r, c);
                lemma_flood_complete_path(g0, *self, sr as int, sc as int, path);
            }
            assert forall|r: int, c: int| g0.in_bounds(r, c) implies #[trigger] self.cell_at(r, c)
                == (Cell {
                contents: g0.cell_at(r, c).contents,
                state: if g0.revealed_at(r, c) || reveals_to(g0, sr as int, sc as int, r, c) {
                    CellState::Revealed
                } else {
                    g0.cell_at(r, c).state
                },
            }) by {}
        }
    }
}

} // verus!
