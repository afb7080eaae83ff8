//! The geometry of the 9×9 board and the predicates on a grid of tiles.
//!
//! Cells are numbered row by row, so cell `i` lies in row `i / 9` and column
//! `i % 9`. A grid is a sequence of 81 tiles.

use vstd::prelude::*;
use crate::tile::Tile;

verus! {

/// The row of a cell, counted from 0.
pub open spec fn row_of(i: int) -> int {
    i / 9
}

/// The column of a cell, counted from 0.
pub open spec fn col_of(i: int) -> int {
    i % 9
}

/// The 3×3 box of a cell, numbered 0 to 8 row by row.
pub open spec fn box_of(i: int) -> int {
    (i / 9) / 3 * 3 + (i % 9) / 3
}

/// Cells `i` and `j` share a row, a column or a box. Every cell is its own
/// peer.
pub open spec fn peers(i: int, j: int) -> bool {
    &&& 0 <= i < 81
    &&& 0 <= j < 81
    &&& (row_of(i) == row_of(j) || col_of(i) == col_of(j) || box_of(i) == box_of(j))
}

/// Row of the `t`-th cell in the walk through the units of cell `i`.
pub open spec fn scan_row(i: int, t: int) -> int {
    if t < 9 {
        i / 9
    } else if t < 18 {
        t - 9
    } else {
        (i / 9) / 3 * 3 + (t - 18) / 3
    }
}

/// Column of the `t`-th cell in the walk through the units of cell `i`.
pub open spec fn scan_col(i: int, t: int) -> int {
    if t < 9 {
        t
    } else if t < 18 {
        i % 9
    } else {
        (i % 9) / 3 * 3 + (t - 18) % 3
    }
}

/// The order in which the units of cell `i` are walked: its row for `t` in
/// 0..9, its column for `t` in 9..18, its box for `t` in 18..27.
pub open spec fn scan_cell(i: int, t: int) -> int {
    9 * scan_row(i, t) + scan_col(i, t)
}

/// A cell number splits into its row and column, and back.
proof fn lemma_row_col(r: int, c: int)
    requires
        0 <= c < 9,
    ensures
        (9 * r + c) / 9 == r,
        (9 * r + c) % 9 == c,
{
}

proof fn lemma_third(q: int, r: int)
    requires
        0 <= r < 3,
    ensures
        (3 * q + r) / 3 == q,
        (3 * q + r) % 3 == r,
{
}

/// Every cell that the walk visits is a peer of its starting cell.
pub proof fn lemma_scan_cell_is_peer(i: int, t: int)
    requires
        0 <= i < 81,
        0 <= t < 27,
    ensures
        peers(i, scan_cell(i, t)),
        0 <= scan_row(i, t) < 9,
        0 <= scan_col(i, t) < 9,
{
    let r = scan_row(i, t);
    let c = scan_col(i, t);
    if t >= 18 {
        lemma_third((i / 9) / 3, (t - 18) / 3);
        lemma_third((i % 9) / 3, (t - 18) % 3);
        assert((i / 9) / 3 * 3 == 3 * ((i / 9) / 3));
        assert((i % 9) / 3 * 3 == 3 * ((i % 9) / 3));
        assert(r / 3 == (i / 9) / 3);
        assert(c / 3 == (i % 9) / 3);
    }
    assert(0 <= r < 9 && 0 <= c < 9);
    lemma_row_col(r, c);
}

/// The walk visits every peer of its starting cell: the result is a position
/// of `j` in the walk from `i`.
pub proof fn lemma_peer_is_scanned(i: int, j: int) -> (t: int)
    requires
        peers(i, j),
    ensures
        0 <= t < 27,
        scan_cell(i, t) == j,
{
    let r = j / 9;
    let c = j % 9;
    assert(j == 9 * r + c);
    if row_of(i) == row_of(j) {
        c
    } else if col_of(i) == col_of(j) {
        9 + r
    } else {
        let k = (r % 3) * 3 + c % 3;
        lemma_third(r % 3, c % 3);
        assert((r % 3) * 3 == 3 * (r % 3));
        assert(k / 3 == r % 3 && k % 3 == c % 3);
        assert(r / 3 == (i / 9) / 3 && c / 3 == (i % 9) / 3);
        assert(r == r / 3 * 3 + r % 3);
        assert(c == c / 3 * 3 + c % 3);
        18 + k
    }
}

/// A grid has 81 cells, each empty or with a digit from 1 to 9.
pub open spec fn grid_wf(g: Seq<Tile>) -> bool {
    &&& g.len() == 81
    &&& forall|i: int| 0 <= i < 81 ==> (#[trigger] g[i]).wf()
}

/// The grid with every cell empty.
pub open spec fn empty_grid() -> Seq<Tile> {
    Seq::new(81, |i: int| Tile::Empty)
}

/// Digit `d` already stands somewhere in the row, column or box of cell `i`
/// (cell `i` itself included).
pub open spec fn used(g: Seq<Tile>, i: int, d: int) -> bool {
    exists|j: int| #[trigger] peers(i, j) && g[j].digit() == d
}

/// No two distinct cells of one row, column or box carry the same digit.
pub open spec fn conflict_free(g: Seq<Tile>) -> bool {
    forall|i: int, j: int|
        #[trigger] peers(i, j) && i != j && !(g[i] is Empty) && !(g[j] is Empty) ==> g[i].digit()
            != g[j].digit()
}

/// No cell is empty.
pub open spec fn complete(g: Seq<Tile>) -> bool {
    forall|i: int| 0 <= i < 81 ==> !(#[trigger] g[i] is Empty)
}

/// The grid with every digit of the search taken out again.
pub open spec fn cleared(g: Seq<Tile>) -> Seq<Tile> {
    Seq::new(
        g.len(),
        |i: int|
            if g[i] is SolverVariable {
                Tile::Empty
            } else {
                g[i]
            },
    )
}

/// The smallest digit above `after` that is not used around cell `i`, or 10
/// when there is none up to 9.
pub open spec fn next_free_digit(g: Seq<Tile>, i: int, after: int) -> int
    decreases 9 - after,
{
    if after >= 9 {
        10
    } else if !used(g, i, after + 1) {
        after + 1
    } else {
        next_free_digit(g, i, after + 1)
    }
}

/// `next_free_digit` is the least unused digit above `after`: every digit
/// strictly between is used, and the result itself is unused unless it is 10.
pub proof fn lemma_next_free_digit(g: Seq<Tile>, i: int, after: int)
    requires
        0 <= after,
    ensures
        after < next_free_digit(g, i, after) <= 10 || (after >= 9 && next_free_digit(g, i, after)
            == 10),
        next_free_digit(g, i, after) <= 9 ==> !used(g, i, next_free_digit(g, i, after)),
        forall|e: int| after < e < next_free_digit(g, i, after) && e <= 9 ==> used(g, i, e),
    decreases 9 - after,
{
    if after < 9 && used(g, i, after + 1) {
        lemma_next_free_digit(g, i, after + 1);
    }
}

/// Some digit from 1 to 9 can still go into cell `j`.
pub open spec fn has_candidate(g: Seq<Tile>, j: int) -> bool {
    exists|d: int| 1 <= d <= 9 && !#[trigger] used(g, j, d)
}

/// The lookahead after a move at cell `i`: every empty cell in the row,
/// column and box of `i` still has a digit that can go into it.
pub open spec fn lookahead_ok(g: Seq<Tile>, i: int) -> bool {
    forall|j: int| #[trigger] peers(i, j) && g[j] is Empty ==> has_candidate(g, j)
}

/// Whether `tile` may be written into cell `i`: never over a clue; an empty
/// tile always; a digit from 1 to 9 only where it is not yet used around `i`.
pub open spec fn can_place(g: Seq<Tile>, i: int, tile: Tile) -> bool {
    &&& !(g[i] is Const)
    &&& (tile is Empty || (1 <= tile.digit() <= 9 && !used(g, i, tile.digit())))
}

/// Writing a tile that is empty, or whose digit is not yet used around the
/// cell, keeps a grid free of conflicts.
pub proof fn lemma_place_keeps_conflict_free(g: Seq<Tile>, i: int, tile: Tile)
    requires
        g.len() == 81,
        0 <= i < 81,
        conflict_free(g),
        tile is Empty || !used(g, i, tile.digit()),
    ensures
        conflict_free(g.update(i, tile)),
{
    let h = g.update(i, tile);
    assert forall|a: int, b: int|
        #[trigger] peers(a, b) && a != b && !(h[a] is Empty) && !(h[b] is Empty) implies h[a].digit()
        != h[b].digit() by {
        if a == i {
            assert(peers(i, b));
        } else if b == i {
            assert(peers(i, a));
        }
    }
}

/// Taking the digits of the search out keeps a grid well formed and free of
/// conflicts, leaves every other tile as it is, and changes nothing when done
/// a second time.
pub proof fn lemma_cleared(g: Seq<Tile>)
    ensures
        cleared(g).len() == g.len(),
        forall|i: int| 0 <= i < g.len() ==> !(#[trigger] cleared(g)[i] is SolverVariable),
        forall|i: int|
            0 <= i < g.len() && !(g[i] is SolverVariable) ==> #[trigger] cleared(g)[i] == g[i],
        cleared(cleared(g)) == cleared(g),
        grid_wf(g) ==> grid_wf(cleared(g)),
        g.len() == 81 && conflict_free(g) ==> conflict_free(cleared(g)),
{
    assert(cleared(cleared(g)) =~= cleared(g));
    if g.len() == 81 && conflict_free(g) {
        let h = cleared(g);
        assert forall|a: int, b: int|
            #[trigger] peers(a, b) && a != b && !(h[a] is Empty) && !(h[b] is Empty) implies h[a].digit()
            != h[b].digit() by {
            assert(h[a] == g[a] && h[b] == g[b]);
        }
    }
}

} // verus!
