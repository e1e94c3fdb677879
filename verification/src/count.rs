use vstd::prelude::*;

use crate::cell::Cell;
use crate::grid::{b2i, Grid};

verus! {

/// The number of bombs on the whole board.
pub open spec fn total_bombs(g: Grid) -> int {
    bombs_in(g.cells@, g.cells@.len() as int)
}

/// The number of bomb cells among the first n entries.
pub open spec fn bombs_in(s: Seq<Cell>, n: int) -> int
    decreases n,
{
    if n <= 0 {
        0
    } else {
        bombs_in(s, n - 1) + b2i(s[n - 1].contents is Bomb)
    }
}

/// The number of not-yet-revealed cells among the first n entries.
pub open spec fn hidden_in(s: Seq<Cell>, n: int) -> int
    decreases n,
{
    if n <= 0 {
        0
    } else {
        hidden_in(s, n - 1) + b2i(!(s[n - 1].state is Revealed))
    }
}

pub proof fn lemma_hidden_in_nonneg(s: Seq<Cell>, n: int)
    ensures
        0 <= hidden_in(s, n),
    decreases n,
{
    if n > 0 {
        lemma_hidden_in_nonneg(s, n - 1);
    }
}

/// A stretch without a single bomb cell counts zero.
pub proof fn lemma_bombs_in_zero(s: Seq<Cell>, n: int)
    requires
        forall|j: int| 0 <= j < n ==> !((#[trigger] s[j]).contents is Bomb),
    ensures
        bombs_in(s, n) == 0,
    decreases n,
{
    if n > 0 {
        lemma_bombs_in_zero(s, n - 1);
    }
}

/// Sequences whose entries agree on being bombs have the same bomb count.
pub proof fn lemma_bombs_in_agree(s1: Seq<Cell>, s2: Seq<Cell>, n: int)
    requires
        forall|j: int|
            0 <= j < n ==> ((#[trigger] s1[j]).contents is Bomb) == ((#[trigger] s2[j]).contents
                is Bomb),
    ensures
        bombs_in(s1, n) == bombs_in(s2, n),
    decreases n,
{
    if n > 0 {
        lemma_bombs_in_agree(s1, s2, n - 1);
    }
}

/// Turning the one entry at i from non-bomb to bomb raises the bomb count of
/// any prefix that covers i by exactly one.
pub proof fn lemma_bombs_in_flip(s1: Seq<Cell>, s2: Seq<Cell>, i: int, n: int)
    requires
        forall|j: int|
            0 <= j < n && j != i ==> ((#[trigger] s1[j]).contents is Bomb) == ((
            #[trigger] s2[j]).contents is Bomb),
        0 <= i,
        !(s1[i].contents is Bomb),
        s2[i].contents is Bomb,
    ensures
        bombs_in(s2, n) == bombs_in(s1, n) + (
        if i < n {
            1int
        } else {
            0int
        }),
    decreases n,
{
    if n > 0 {
        lemma_bombs_in_flip(s1, s2, i, n - 1);
    }
}

/// Revealing the one entry at i lowers the count of hidden cells of any
/// prefix that covers i by exactly one.
pub proof fn lemma_hidden_in_flip(s1: Seq<Cell>, s2: Seq<Cell>, i: int, n: int)
    requires
        forall|j: int|
            0 <= j < n && j != i ==> ((#[trigger] s1[j]).state is Revealed) == ((
            #[trigger] s2[j]).state is Revealed),
        0 <= i,
        !(s1[i].state is Revealed),
        s2[i].state is Revealed,
    ensures
        hidden_in(s2, n) == hidden_in(s1, n) - (
        if i < n {
            1int
        } else {
            0int
        }),
    decreases n,
{
    if n > 0 {
        lemma_hidden_in_flip(s1, s2, i, n - 1);
    }
}

} // verus!
