use vstd::prelude::*;

use crate::flood::{flood_path, lemma_reveals_to_extend, lemma_reveals_to_self, reveal_post,
    reveals_to};
use crate::grid::{moore_count, toggle_flag_post, Grid};

verus! {

/// On a board whose every square is an unrevealed zero hint, a flood path
/// leads from any square to any other: one reveal covers the whole board.
pub proof fn lemma_full_flood_on_zero_board(g: Grid, sr: int, sc: int, r: int, c: int)
    requires
        g.in_bounds(sr, sc),
        g.in_bounds(r, c),
        forall|x: int, y: int| g.in_bounds(x, y) ==> g.zero_at(x, y),
        forall|x: int, y: int| g.in_bounds(x, y) ==> !g.revealed_at(x, y),
    ensures
        reveals_to(g, sr, sc, r, c),
    decreases vstd::math::abs(r - sr) + vstd::math::abs(c - sc),
{
    if r == sr && c == sc {
        lemma_reveals_to_self(g, sr, sc);
    } else {
        let pr = if r > sr {
            r - 1
        } else if r < sr {
            r + 1
        } else {
            r
        };
        let pc = if c > sc {
            c - 1
        } else if c < sc {
            c + 1
        } else {
            c
        };
        lemma_full_flood_on_zero_board(g, sr, sc, pr, pc);
        lemma_reveals_to_extend(g, sr, sc, pr, pc, r, c);
    }
}

/// Neighbor counts by position: a square has exactly 8 in-bounds neighbors
/// if and only if it lies strictly inside the rim; on a board with at least
/// two rows and two columns, a corner square has exactly 3 and an edge
/// square that is no corner exactly 5.
pub proof fn lemma_neighbor_counts(rows: int, cols: int, r: int, c: int)
    requires
        0 <= r < rows,
        0 <= c < cols,
    ensures
        moore_count(rows, cols, r, c) == 8 <==> (0 < r < rows - 1 && 0 < c < cols - 1),
        rows >= 2 && cols >= 2 && (r == 0 || r == rows - 1) && (c == 0 || c == cols - 1)
            ==> moore_count(rows, cols, r, c) == 3,
        rows >= 2 && cols >= 2 && (r == 0 || r == rows - 1) && 0 < c < cols - 1 ==> moore_count(
            rows,
            cols,
            r,
            c,
        ) == 5,
        rows >= 2 && cols >= 2 && 0 < r < rows - 1 && (c == 0 || c == cols - 1) ==> moore_count(
            rows,
            cols,
            r,
            c,
        ) == 5,
{
}

/// A flag toggle alone never reveals a square; a revealed square is
/// terminal, untouched by a flag toggle and by a further reveal.
pub proof fn lemma_state_machine_legality(pre: Grid, post: Grid, tr: int, tc: int, r: int, c: int)
    requires
        pre.in_bounds(tr, tc),
        pre.in_bounds(r, c),
    ensures
        toggle_flag_post(pre, post, tr, tc) && !pre.revealed_at(r, c) ==> !post.revealed_at(r, c),
        toggle_flag_post(pre, post, tr, tc) && pre.revealed_at(r, c) ==> post.cell_at(r, c)
            == pre.cell_at(r, c),
        reveal_post(pre, post, tr, tc) && pre.revealed_at(r, c) ==> post.cell_at(r, c)
            == pre.cell_at(r, c),
{
}

/// Revealing the same square a second time changes nothing: the board after
/// the second reveal equals the board after the first, cell for cell.
pub proof fn lemma_reveal_idempotent(g0: Grid, g1: Grid, g2: Grid, tr: int, tc: int)
    requires
        g0.in_bounds(tr, tc),
        reveal_post(g0, g1, tr, tc),
        reveal_post(g1, g2, tr, tc),
    ensures
        g2.rows == g1.rows,
        g2.cols == g1.cols,
        forall|r: int, c: int|
            g1.in_bounds(r, c) ==> #[trigger] g2.cell_at(r, c) == g1.cell_at(r, c),
{
    assert forall|r: int, c: int|
        g1.in_bounds(r, c) && reveals_to(g1, tr, tc, r, c) implies g1.revealed_at(r, c) by {
        let path = choose|path: Seq<(int, int)>|
            flood_path(g1, path) && path.first() == (tr, tc) && path.last() == (r, c);
        assert forall|i: int| 0 <= i < path.len() implies g0.in_bounds(
            (#[trigger] path[i]).0,
            path[i].1,
        ) by {
            assert(g1.in_bounds(path[i].0, path[i].1));
        }
        assert forall|i: int| 0 <= i < path.len() - 1 implies g0.zero_at(
            (#[trigger] path[i]).0,
            path[i].1,
        ) by {
            assert(g1.zero_at(path[i].0, path[i].1));
            assert(g1.cell_at(path[i].0, path[i].1).contents == g0.cell_at(
                path[i].0,
                path[i].1,
            ).contents);
        }
        assert forall|i: int| 1 <= i < path.len() - 1 implies !g0.revealed_at(
            (#[trigger] path[i]).0,
            path[i].1,
        ) by {
            assert(!g1.revealed_at(path[i].0, path[i].1));
            assert(g1.in_bounds(path[i].0, path[i].1));
        }
        assert(flood_path(g0, path));
        assert(reveals_to(g0, tr, tc, r, c));
    }
    assert forall|r: int, c: int| g1.in_bounds(r, c) implies #[trigger] g2.cell_at(r, c)
        == g1.cell_at(r, c) by {
        if g1.revealed_at(r, c) || reveals_to(g1, tr, tc, r, c) {
            assert(g1.revealed_at(r, c));
        }
    }
}

} // verus!
