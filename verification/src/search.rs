//! Why the search is right: from a fresh start it ends after finitely many
//! moves, with a solution whenever the puzzle has one, and without a solution
//! only when it has none.
//!
//! The proof follows the search cell by cell. `lemma_explore` speaks of the
//! moment the cursor enters a cell facing forward; `lemma_try_digits` of the
//! moment a cell is about to receive its next digit. Each returns a number of
//! moves after which the search has either found a solution or given the cell
//! up, and shows that a cell is given up only when no solution passes
//! through it.

use vstd::prelude::*;
use crate::board::{
    complete, grid_wf, has_candidate, lemma_next_free_digit, lookahead_ok, next_free_digit, peers,
    used,
};
use crate::model::{lemma_advance_wf, lemma_run_add, lemma_run_one, SudokuView};
use crate::tile::Tile;

verus! {

/// A grid as a search starts from it: well formed, and with no digit of the
/// search in it.
pub open spec fn base_grid(b: Seq<Tile>) -> bool {
    &&& grid_wf(b)
    &&& forall|i: int| 0 <= i < 81 ==> !(#[trigger] b[i] is SolverVariable)
}

/// Every digit of the search differs from the digits of all other cells in
/// its row, its column and its box.
pub open spec fn settled(g: Seq<Tile>) -> bool {
    forall|i: int, j: int|
        #[trigger] peers(i, j) && i != j && g[i] is SolverVariable && !(g[j] is Empty)
            ==> g[i].digit() != g[j].digit()
}

/// Cell `i` of `g` is what the search has made of cell `i` of `b` when it
/// stands on cell `c`: the tile of `b` where that is not empty; else a digit
/// of the search below `c`, and still empty from `c` on.
pub open spec fn cell_filled(g: Seq<Tile>, b: Seq<Tile>, c: int, i: int) -> bool {
    if b[i] is Empty {
        if i < c {
            g[i] is SolverVariable
        } else {
            g[i] is Empty
        }
    } else {
        g[i] == b[i]
    }
}

/// `g` is `b` with its empty cells below `c` filled by the search.
pub open spec fn fills(g: Seq<Tile>, b: Seq<Tile>, c: int) -> bool {
    forall|i: int| 0 <= i < 81 ==> #[trigger] cell_filled(g, b, c, i)
}

/// `g` is a consistent partial filling of `b` up to cell `c`.
pub open spec fn partial(g: Seq<Tile>, b: Seq<Tile>, c: int) -> bool {
    &&& grid_wf(g)
    &&& base_grid(b)
    &&& 0 <= c <= 81
    &&& fills(g, b, c)
    &&& settled(g)
}

/// `t` solves `b`: it keeps every tile of `b` that is not empty, and fills
/// each empty cell with a digit that no other cell of its row, column or box
/// carries.
pub open spec fn solves(t: Seq<Tile>, b: Seq<Tile>) -> bool {
    partial(t, b, 81)
}

/// `t` and `g` hold the same tiles in the cells below `c`.
pub open spec fn agrees_below(t: Seq<Tile>, g: Seq<Tile>, c: int) -> bool {
    forall|i: int| 0 <= i < c ==> (#[trigger] t[i]) == g[i]
}

/// No solution of `b` holds the tiles of `g` in the cells below `c`.
pub open spec fn no_solution_from(g: Seq<Tile>, b: Seq<Tile>, c: int) -> bool {
    forall|t: Seq<Tile>| #[trigger] solves(t, b) ==> !agrees_below(t, g, c)
}

/// Every solution of `b` that holds the tiles of `g` below `c` has a digit
/// above `d` in cell `c`.
pub open spec fn only_above(g: Seq<Tile>, b: Seq<Tile>, c: int, d: int) -> bool {
    forall|t: Seq<Tile>| #[trigger] solves(t, b) && agrees_below(t, g, c) ==> t[c].digit() > d
}

/// Cell `k` is the first in which `a` and `t` differ, and `a` has the
/// smaller digit there.
pub open spec fn smaller_at(a: Seq<Tile>, t: Seq<Tile>, k: int) -> bool {
    &&& 0 <= k < 81
    &&& agrees_below(a, t, k)
    &&& a[k].digit() < t[k].digit()
}

/// `a` is `t`, or comes before `t` when grids are ordered by their digits in
/// reading order.
pub open spec fn comes_first(a: Seq<Tile>, t: Seq<Tile>) -> bool {
    a == t || exists|k: int| #[trigger] smaller_at(a, t, k)
}

/// `a` comes first among the solutions of `b` that hold the tiles of `g` in
/// the cells below `c`.
pub open spec fn first_from(a: Seq<Tile>, g: Seq<Tile>, b: Seq<Tile>, c: int) -> bool {
    forall|t: Seq<Tile>| #[trigger] solves(t, b) && agrees_below(t, g, c) ==> comes_first(a, t)
}

/// The search has ended with a solution of `b` in the grid: the first of
/// those that hold the tiles of `g` in the cells below `c`.
pub open spec fn found(r: SudokuView, g: Seq<Tile>, b: Seq<Tile>, c: int) -> bool {
    &&& r.state is SolutionFound
    &&& solves(r.tiles, b)
    &&& agrees_below(r.tiles, g, c)
    &&& first_from(r.tiles, g, b, c)
}

/// The search has given up cell `c`: the grid is `g` again, the direction is
/// backward, and the cursor stands on the cell before `c`, or, where `c` is
/// cell 0, the search has ended without a solution.
pub open spec fn gave_up(r: SudokuView, g: Seq<Tile>, c: int) -> bool {
    &&& r.wf()
    &&& r.tiles == g
    &&& r.direction is Backward
    &&& if c == 0 {
        r.state is NoSolution && r.cursor == 0
    } else {
        r.state is Running && r.cursor == c - 1
    }
}

/// A solution holds every tile that the search has placed or found below the
/// cursor, and every tile of the starting grid.
proof fn lemma_known_cell(t: Seq<Tile>, h: Seq<Tile>, b: Seq<Tile>, c: int, k: int)
    requires
        solves(t, b),
        fills(h, b, c),
        agrees_below(t, h, c),
        0 <= k < 81,
        !(h[k] is Empty),
    ensures
        t[k] == h[k],
{
    assert(cell_filled(h, b, c, k));
    assert(cell_filled(t, b, 81, k));
    if k < c {
        assert(t[k] == h[k]);
    }
}

/// A digit that is used around cell `c` stands in no solution at cell `c`.
proof fn lemma_used_digit_excluded(t: Seq<Tile>, g: Seq<Tile>, b: Seq<Tile>, c: int, e: int)
    requires
        solves(t, b),
        0 <= c < 81,
        b[c] is Empty,
        g.len() == 81,
        partial(g.update(c, Tile::Empty), b, c),
        agrees_below(t, g, c),
        used(g, c, e),
        e != g[c].digit(),
        1 <= e,
    ensures
        t[c].digit() != e,
{
    let h = g.update(c, Tile::Empty);
    let j = choose|j: int| #[trigger] peers(c, j) && g[j].digit() == e;
    assert(j != c);
    assert(h[j] == g[j]);
    assert(agrees_below(t, h, c)) by {
        assert forall|i: int| 0 <= i < c implies (#[trigger] t[i]) == h[i] by {
            assert(t[i] == g[i]);
        }
    }
    lemma_known_cell(t, h, b, c, j);
    assert(cell_filled(t, b, 81, c));
    assert(t[c] is SolverVariable);
    assert(peers(c, j));
}

/// Where the lookahead fails at cell `c`, no solution holds the grid as
/// it stands up to and with cell `c`.
proof fn lemma_dead_end(t: Seq<Tile>, g: Seq<Tile>, b: Seq<Tile>, c: int)
    requires
        solves(t, b),
        partial(g, b, c + 1),
        0 <= c < 81,
        !lookahead_ok(g, c),
    ensures
        !agrees_below(t, g, c + 1),
{
    if agrees_below(t, g, c + 1) {
        lemma_blocked_cell(t, g, b, c);
    }
}

/// In a solution that holds the grid up to and with cell `c`, every empty
/// cell around `c` has a digit that is not yet used around it: the digit it
/// has in the solution.
proof fn lemma_blocked_cell(t: Seq<Tile>, g: Seq<Tile>, b: Seq<Tile>, c: int)
    requires
        solves(t, b),
        partial(g, b, c + 1),
        0 <= c < 81,
        agrees_below(t, g, c + 1),
    ensures
        lookahead_ok(g, c),
{
    assert forall|j: int| #[trigger] peers(c, j) && g[j] is Empty implies has_candidate(g, j) by {
        assert(cell_filled(g, b, c + 1, j));
        assert(cell_filled(t, b, 81, j));
        assert(t[j].wf());
        let e = t[j].digit();
        if used(g, j, e) {
            let k = choose|k: int| #[trigger] peers(j, k) && g[k].digit() == e;
            lemma_known_cell(t, g, b, c + 1, k);
            assert(peers(j, k));
        }
        assert(1 <= e <= 9 && !used(g, j, e));
    }
}

/// Writing an unused digit at the cursor gives a consistent partial filling
/// up to the next cell.
proof fn lemma_assign_partial(g: Seq<Tile>, b: Seq<Tile>, c: int, next: int)
    requires
        0 <= c < 81,
        b[c] is Empty,
        g.len() == 81,
        partial(g.update(c, Tile::Empty), b, c),
        1 <= next <= 9,
        !used(g, c, next),
    ensures
        partial(g.update(c, Tile::SolverVariable(next as u8)), b, c + 1),
{
    let h = g.update(c, Tile::Empty);
    let g1 = g.update(c, Tile::SolverVariable(next as u8));
    assert(grid_wf(g1)) by {
        assert forall|i: int| 0 <= i < 81 implies (#[trigger] g1[i]).wf() by {
            if i != c {
                assert(h[i].wf());
            }
        }
    }
    assert(fills(g1, b, c + 1)) by {
        assert forall|i: int| 0 <= i < 81 implies #[trigger] cell_filled(g1, b, c + 1, i) by {
            assert(cell_filled(h, b, c, i));
        }
    }
    assert(settled(g1)) by {
        assert forall|i: int, j: int|
            #[trigger] peers(i, j) && i != j && g1[i] is SolverVariable && !(g1[j] is Empty) implies g1[i].digit()
            != g1[j].digit() by {
            if i == c {
                assert(peers(c, j));
                assert(g[j] == g1[j]);
            } else if j == c {
                assert(peers(c, i));
                assert(g[i] == g1[i]);
            } else {
                assert(h[i] == g1[i] && h[j] == g1[j]);
            }
        }
    }
}

/// Two grids that differ in cell `c` at most agree with the same grids in
/// the cells below `c`, and so exclude the same solutions by those cells.
proof fn lemma_same_below(g: Seq<Tile>, g1: Seq<Tile>, b: Seq<Tile>, c: int)
    requires
        0 <= c < 81,
        g.len() == 81,
        g1 == g.update(c, g1[c]),
    ensures
        no_solution_from(g1, b, c) ==> no_solution_from(g, b, c),
        forall|t: Seq<Tile>| agrees_below(t, g, c) == agrees_below(t, g1, c),
{
    assert forall|t: Seq<Tile>| agrees_below(t, g, c) == agrees_below(t, g1, c) by {
        if agrees_below(t, g, c) {
            assert forall|i: int| 0 <= i < c implies (#[trigger] t[i]) == g1[i] by {
                assert(t[i] == g[i]);
            }
        }
        if agrees_below(t, g1, c) {
            assert forall|i: int| 0 <= i < c implies (#[trigger] t[i]) == g[i] by {
                assert(t[i] == g1[i]);
            }
        }
    }
    if no_solution_from(g1, b, c) {
        assert forall|t: Seq<Tile>| #[trigger] solves(t, b) implies !agrees_below(t, g, c) by {
            if agrees_below(t, g, c) {
                assert forall|i: int| 0 <= i < c implies (#[trigger] t[i]) == g1[i] by {
                    assert(t[i] == g[i]);
                }
                assert(agrees_below(t, g1, c));
            }
        }
    }
}

/// A solution that is first among those that hold a clue or a hand-entered
/// digit in cell `c` is first without that condition: every solution holds
/// that tile.
proof fn lemma_first_past_fixed(r: SudokuView, g: Seq<Tile>, b: Seq<Tile>, c: int)
    requires
        0 <= c < 81,
        !(b[c] is Empty),
        g[c] == b[c],
        found(r, g, b, c + 1),
    ensures
        found(r, g, b, c),
{
    assert forall|t: Seq<Tile>| #[trigger] solves(t, b) && agrees_below(t, g, c) implies comes_first(
        r.tiles,
        t,
    ) by {
        assert(cell_filled(t, b, 81, c));
        assert(agrees_below(t, g, c + 1));
    }
}

/// A solution that is first among those with the digit `next` in cell `c` is
/// first among all that have `next` or more there.
proof fn lemma_first_by_digit(
    r: SudokuView,
    g: Seq<Tile>,
    g1: Seq<Tile>,
    b: Seq<Tile>,
    c: int,
    next: int,
)
    requires
        0 <= c < 81,
        1 <= next <= 9,
        b[c] is Empty,
        g.len() == 81,
        g1 == g.update(c, Tile::SolverVariable(next as u8)),
        found(r, g1, b, c + 1),
        forall|t: Seq<Tile>| #[trigger] solves(t, b) && agrees_below(t, g, c) ==> t[c].digit() >= next,
    ensures
        found(r, g, b, c),
{
    lemma_same_below(g, g1, b, c);
    assert(agrees_below(r.tiles, g1, c));
    assert forall|t: Seq<Tile>| #[trigger] solves(t, b) && agrees_below(t, g, c) implies comes_first(
        r.tiles,
        t,
    ) by {
        assert(cell_filled(t, b, 81, c));
        assert(agrees_below(t, g1, c));
        if t[c].digit() == next {
            assert(t[c] == g1[c]);
            assert(agrees_below(t, g1, c + 1));
        } else {
            assert(r.tiles[c] == g1[c]);
            assert forall|i: int| 0 <= i < c implies (#[trigger] r.tiles[i]) == t[i] by {
                assert(r.tiles[i] == g1[i]);
                assert(t[i] == g1[i]);
            }
            assert(smaller_at(r.tiles, t, c));
        }
    }
}

/// From the moment the cursor enters cell `c` facing forward, with the cells
/// below filled consistently, the search after the returned number of moves
/// has found a solution or given cell `c` up. What it finds is the first of
/// the solutions that hold the tiles below `c`; and it gives the cell up only
/// if there is no such solution.
pub proof fn lemma_explore(s: SudokuView, b: Seq<Tile>, c: int) -> (n: nat)
    requires
        s.wf(),
        s.state is Running,
        s.cursor == c,
        s.direction is Forward,
        partial(s.tiles, b, c),
    ensures
        found(s.run(n), s.tiles, b, c) || (gave_up(s.run(n), s.tiles, c) && no_solution_from(
            s.tiles,
            b,
            c,
        )),
    decreases 81 - c, 11int,
{
    let g = s.tiles;
    lemma_run_one(s);
    lemma_advance_wf(s);
    if c == 81 {
        assert(complete(g)) by {
            assert forall|i: int| 0 <= i < 81 implies !(#[trigger] g[i] is Empty) by {
                assert(cell_filled(g, b, 81, i));
                assert(b[i].wf());
            }
        }
        assert forall|t: Seq<Tile>| #[trigger] solves(t, b) && agrees_below(t, g, 81) implies comes_first(
            g,
            t,
        ) by {
            assert(g =~= t);
        }
        1
    } else if b[c] is Empty {
        assert(cell_filled(g, b, c, c));
        assert(g.update(c, Tile::Empty) =~= g);
        assert forall|t: Seq<Tile>| #[trigger] solves(t, b) && agrees_below(t, g, c) implies t[c].digit()
            > 0 by {
            assert(cell_filled(t, b, 81, c));
            assert(t[c].wf());
        }
        lemma_try_digits(s, b, c, 0)
    } else {
        assert(cell_filled(g, b, c, c));
        assert(g[c].is_fixed());
        let s1 = s.advance();
        assert(s1.cursor == c + 1 && s1.tiles == g && s1.direction is Forward && s1.state is Running);
        assert(fills(g, b, c + 1)) by {
            assert forall|i: int| 0 <= i < 81 implies #[trigger] cell_filled(g, b, c + 1, i) by {
                assert(cell_filled(g, b, c, i));
            }
        }
        let n1 = lemma_explore(s1, b, c + 1);
        let r1 = s1.run(n1);
        lemma_run_add(s, 1, n1);
        if found(r1, g, b, c + 1) {
            lemma_first_past_fixed(r1, g, b, c);
            1 + n1
        } else {
            lemma_advance_wf(r1);
            lemma_run_one(r1);
            lemma_run_add(s, 1 + n1, 1);
            assert forall|t: Seq<Tile>| #[trigger] solves(t, b) implies !agrees_below(t, g, c) by {
                assert(cell_filled(t, b, 81, c));
                if agrees_below(t, g, c) {
                    assert(agrees_below(t, g, c + 1));
                }
            }
            n1 + 2
        }
    }
}

/// From the moment the empty cell `c` is about to receive its next digit,
/// every digit up to `d` having been tried, the search after the returned
/// number of moves has found a solution or given cell `c` up. What it finds
/// is the first of the solutions that hold the tiles below `c`; and it gives
/// the cell up only if there is no such solution.
pub proof fn lemma_try_digits(s: SudokuView, b: Seq<Tile>, c: int, d: int) -> (n: nat)
    requires
        s.wf(),
        s.state is Running,
        s.cursor == c,
        0 <= c < 81,
        b[c] is Empty,
        partial(s.tiles.update(c, Tile::Empty), b, c),
        (d == 0 && s.direction is Forward && s.tiles[c] is Empty) || (1 <= d <= 9
            && s.direction is Backward && s.tiles[c] == Tile::SolverVariable(d as u8)),
        only_above(s.tiles, b, c, d),
    ensures
        found(s.run(n), s.tiles, b, c) || (gave_up(s.run(n), s.tiles.update(c, Tile::Empty), c)
            && no_solution_from(s.tiles, b, c)),
    decreases 81 - c, 10 - d,
{
    let g = s.tiles;
    let h = g.update(c, Tile::Empty);
    let next = next_free_digit(g, c, d);
    lemma_next_free_digit(g, c, d);
    lemma_run_one(s);
    lemma_advance_wf(s);
    let s1 = s.advance();
    assert(g[c].digit() == d);
    assert(!g[c].is_fixed());
    assert forall|t: Seq<Tile>| #[trigger] solves(t, b) && agrees_below(t, g, c) implies t[c].digit()
        >= next by {
        let e = t[c].digit();
        assert(t[c].wf());
        if d < e < next {
            lemma_used_digit_excluded(t, g, b, c, e);
        }
    }
    if next <= 9 {
        let g1 = g.update(c, Tile::SolverVariable(next as u8));
        assert(s1.tiles == g1 && s1.cursor == c && s1.state is Running);
        lemma_assign_partial(g, b, c, next);
        assert(g1.update(c, Tile::Empty) =~= h);
        lemma_same_below(g, g1, b, c);
        if lookahead_ok(g1, c) {
            assert(s1.direction is Forward);
            let s2 = s1.advance();
            lemma_run_one(s1);
            lemma_advance_wf(s1);
            assert(s2.cursor == c + 1 && s2.tiles == g1 && s2.direction is Forward
                && s2.state is Running);
            let n2 = lemma_explore(s2, b, c + 1);
            let r2 = s2.run(n2);
            lemma_run_add(s, 1, 1);
            lemma_run_add(s, 2, n2);
            if found(r2, g1, b, c + 1) {
                lemma_first_by_digit(r2, g, g1, b, c, next);
                2 + n2
            } else {
                assert forall|t: Seq<Tile>| #[trigger] solves(t, b) && agrees_below(t, g1, c) implies t[c].digit()
                    > next by {
                    if t[c].digit() == next {
                        assert(cell_filled(t, b, 81, c));
                        assert(t[c] == g1[c]);
                        assert(agrees_below(t, g1, c + 1));
                    }
                }
                let n3 = lemma_try_digits(r2, b, c, next);
                lemma_run_add(s, 2 + n2, n3);
                2 + n2 + n3
            }
        } else {
            assert(s1.direction is Backward);
            assert forall|t: Seq<Tile>| #[trigger] solves(t, b) && agrees_below(t, g1, c) implies t[c].digit()
                > next by {
                if t[c].digit() == next {
                    assert(cell_filled(t, b, 81, c));
                    assert(t[c] == g1[c]);
                    assert(agrees_below(t, g1, c + 1));
                    lemma_dead_end(t, g1, b, c);
                }
            }
            let n3 = lemma_try_digits(s1, b, c, next);
            lemma_run_add(s, 1, n3);
            1 + n3
        }
    } else {
        assert(s1.tiles == h);
        assert forall|t: Seq<Tile>| #[trigger] solves(t, b) implies !agrees_below(t, g, c) by {
            assert(t[c].wf());
        }
        1
    }
}

} // verus!
