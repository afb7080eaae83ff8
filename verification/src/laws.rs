//! What holds of the solver as a whole.

use vstd::prelude::*;
use crate::board::{
    can_place, cleared, complete, conflict_free, grid_wf, lemma_cleared,
    lemma_place_keeps_conflict_free, peers,
};
use crate::model::{
    lemma_run_add, lemma_run_keeps_conflict_free, lemma_run_stopped, lemma_run_wf, SudokuView,
};
use crate::pacing::{lemma_period_bounds, lemma_ticked_wf, RATE_UNIT};
use crate::search::{
    agrees_below, base_grid, cell_filled, comes_first, fills, found, lemma_explore, partial,
    solves,
};
use crate::tile::{SolverState, Tile};

verus! {

/// `t` is a solution of the puzzle `b` in the usual sense: a complete grid
/// without two equal digits in any row, column or box, which keeps the tiles
/// of `b` and fills its empty cells with digits of the search.
pub open spec fn completes(t: Seq<Tile>, b: Seq<Tile>) -> bool {
    &&& grid_wf(t)
    &&& conflict_free(t)
    &&& fills(t, b, 81)
}

/// Two clues in one row, column or box carry the same digit.
pub open spec fn has_clashing_clues(b: Seq<Tile>) -> bool {
    exists|i: int, j: int|
        #[trigger] peers(i, j) && i != j && b[i] is Const && b[j] is Const && b[i].digit()
            == b[j].digit()
}

/// A solution in the usual sense is one in the sense of the search; and where
/// the tiles of the puzzle do not clash among themselves, the converse holds
/// too. A solution is always complete.
pub proof fn lemma_completes_solves(t: Seq<Tile>, b: Seq<Tile>)
    requires
        base_grid(b),
    ensures
        completes(t, b) ==> solves(t, b),
        solves(t, b) && conflict_free(b) ==> completes(t, b),
        solves(t, b) ==> complete(t),
        completes(t, b) ==> conflict_free(b),
{
    if solves(t, b) {
        assert forall|i: int| 0 <= i < 81 implies !(#[trigger] t[i] is Empty) by {
            assert(cell_filled(t, b, 81, i));
            assert(b[i].wf());
        }
    }
    if solves(t, b) && conflict_free(b) {
        assert forall|i: int, j: int|
            #[trigger] peers(i, j) && i != j && !(t[i] is Empty) && !(t[j] is Empty) implies t[i].digit()
            != t[j].digit() by {
            assert(cell_filled(t, b, 81, i));
            assert(cell_filled(t, b, 81, j));
            assert(peers(j, i));
        }
    }
    if completes(t, b) {
        assert forall|i: int, j: int|
            #[trigger] peers(i, j) && i != j && !(b[i] is Empty) && !(b[j] is Empty) implies b[i].digit()
            != b[j].digit() by {
            assert(cell_filled(t, b, 81, i));
            assert(cell_filled(t, b, 81, j));
        }
    }
}

/// Starting a search on a well-formed solver puts it where a search starts.
pub proof fn lemma_start_is_fresh(s: SudokuView)
    requires
        s.wf(),
    ensures
        s.rewound(SolverState::Running).fresh(),
        s.state is Idle ==> s.toggled().fresh(),
{
    lemma_cleared(s.tiles);
}

/// A fresh search ends: after the returned number of moves it has either
/// found a solution of the starting grid, or ended without one, in which
/// case the starting grid has no solution and stands unchanged. The solution
/// found is the first of all solutions, ordered by their digits in reading
/// order.
pub proof fn lemma_search_decides(s: SudokuView) -> (n: nat)
    requires
        s.fresh(),
    ensures
        s.run(n).state is SolutionFound || s.run(n).state is NoSolution,
        s.run(n).state is SolutionFound ==> solves(s.run(n).tiles, s.tiles),
        s.run(n).state is SolutionFound ==> forall|t: Seq<Tile>| #[trigger]
            solves(t, s.tiles) ==> comes_first(s.run(n).tiles, t),
        s.run(n).state is NoSolution ==> s.run(n).tiles == s.tiles && s.run(n).cursor == 0
            && forall|t: Seq<Tile>| !#[trigger] solves(t, s.tiles),
{
    let b = s.tiles;
    assert(partial(b, b, 0)) by {
        assert forall|i: int| 0 <= i < 81 implies #[trigger] cell_filled(b, b, 0, i) by {}
    }
    let n = lemma_explore(s, b, 0);
    if found(s.run(n), b, b, 0) {
        assert forall|t: Seq<Tile>| #[trigger] solves(t, b) implies comes_first(s.run(n).tiles, t) by {
            assert(agrees_below(t, b, 0));
        }
    } else {
        assert forall|t: Seq<Tile>| !#[trigger] solves(t, b) by {
            if solves(t, b) {
                assert(agrees_below(t, b, 0));
            }
        }
    }
    n
}

/// Termination and correctness: on a puzzle with exactly one solution, a
/// fresh search ends after finitely many moves with that solution in the
/// grid, no cell empty.
pub proof fn lemma_unique_solution_is_found(s: SudokuView, solution: Seq<Tile>) -> (n: nat)
    requires
        s.fresh(),
        completes(solution, s.tiles),
        forall|t: Seq<Tile>| #[trigger] completes(t, s.tiles) ==> t == solution,
    ensures
        s.run(n).state is SolutionFound,
        s.run(n).tiles == solution,
        complete(s.run(n).tiles),
{
    let b = s.tiles;
    let n = lemma_search_decides(s);
    lemma_completes_solves(solution, b);
    lemma_completes_solves(s.run(n).tiles, b);
    assert(solves(solution, b));
    n
}

/// Unsolvable puzzles are detected: on a grid with two equal clues in one
/// row, column or box, which cannot be completed, a fresh search ends without
/// a solution, on cell 0, and the cursor has stayed between 0 and 81 all the
/// way.
///
/// That the grid cannot be completed is asked for beside the clash of the
/// clues, because the search tests only the digits that it places itself: a
/// grid whose cells are all clues counts as solved whatever the clues are.
pub proof fn lemma_clashing_clues_end_without_solution(s: SudokuView) -> (n: nat)
    requires
        s.fresh(),
        has_clashing_clues(s.tiles),
        forall|t: Seq<Tile>| !#[trigger] solves(t, s.tiles),
    ensures
        s.run(n).state is NoSolution,
        s.run(n).cursor == 0,
        s.run(n).tiles == s.tiles,
        forall|k: nat| 0 <= (#[trigger] s.run(k)).cursor <= 81,
{
    let n = lemma_search_decides(s);
    assert forall|k: nat| 0 <= (#[trigger] s.run(k)).cursor <= 81 by {
        lemma_run_wf(s, k);
    }
    n
}

/// The validity invariant under edits: a tile that may be placed never
/// brings two equal digits into one row, column or box.
pub proof fn lemma_insert_keeps_validity(g: Seq<Tile>, i: int, tile: Tile)
    requires
        grid_wf(g),
        0 <= i < 81,
        conflict_free(g),
        can_place(g, i, tile),
    ensures
        conflict_free(g.update(i, tile)),
        grid_wf(g.update(i, tile)),
{
    lemma_place_keeps_conflict_free(g, i, tile);
    assert forall|k: int| 0 <= k < 81 implies (#[trigger] g.update(i, tile)[k]).wf() by {
        assert(g[k].wf());
    }
}

/// The validity invariant under the search: a grid without two equal digits
/// in any row, column or box stays so under every number of moves, under a
/// tick, and when the start/stop switch is thrown.
pub proof fn lemma_validity_is_kept(s: SudokuView, n: nat)
    requires
        s.wf(),
        conflict_free(s.tiles),
    ensures
        conflict_free(s.run(n).tiles),
        conflict_free(s.tick().tiles),
        conflict_free(s.toggled().tiles),
{
    lemma_run_keeps_conflict_free(s, n);
    lemma_cleared(s.tiles);
    if s.state is Running {
        let t = SudokuView { pacing: s.pacing.ticked(), ..s };
        lemma_ticked_wf(s.pacing);
        lemma_run_keeps_conflict_free(t, s.pacing.budget() as nat);
    }
}

/// Determinism of a move: what the search does depends on the grid, the
/// cursor, the direction and the status alone.
pub proof fn lemma_advance_deterministic(a: SudokuView, b: SudokuView)
    requires
        a.same_search(b),
    ensures
        a.advance().same_search(b.advance()),
{
}

/// Determinism: two solvers that start from the same grid, cursor, direction
/// and status go through the same grids, cursors, directions and statuses,
/// move by move.
pub proof fn lemma_run_deterministic(a: SudokuView, b: SudokuView, n: nat)
    requires
        a.same_search(b),
    ensures
        a.run(n).same_search(b.run(n)),
    decreases n,
{
    if n > 0 {
        lemma_run_deterministic(a, b, (n - 1) as nat);
        lemma_advance_deterministic(a.run((n - 1) as nat), b.run((n - 1) as nat));
    }
}

/// Determinism under pacing: two solvers that agree in what the search reads
/// and in their pacing agree again after every number of ticks.
pub proof fn lemma_ticks_deterministic(a: SudokuView, b: SudokuView, n: nat)
    requires
        a.same_search(b),
        a.pacing == b.pacing,
    ensures
        a.ticks(n).same_search(b.ticks(n)),
        a.ticks(n).pacing == b.ticks(n).pacing,
    decreases n,
{
    if n > 0 {
        lemma_ticks_deterministic(a, b, (n - 1) as nat);
        let x = a.ticks((n - 1) as nat);
        let y = b.ticks((n - 1) as nat);
        if x.state is Running {
            let x1 = SudokuView { pacing: x.pacing.ticked(), ..x };
            let y1 = SudokuView { pacing: y.pacing.ticked(), ..y };
            lemma_run_deterministic(x1, y1, x.pacing.budget() as nat);
            lemma_run_keeps_pacing(x1, x.pacing.budget() as nat);
            lemma_run_keeps_pacing(y1, y.pacing.budget() as nat);
        }
    }
}

/// The search touches neither the pacing nor the difficulty.
pub proof fn lemma_run_keeps_pacing(s: SudokuView, n: nat)
    ensures
        s.run(n).pacing == s.pacing,
        s.run(n).difficulty == s.difficulty,
    decreases n,
{
    if n > 0 {
        lemma_run_keeps_pacing(s, (n - 1) as nat);
    }
}

/// Throwing the start/stop switch any number of times, at least once, leaves
/// the cursor on cell 0 facing forward with no move counted, the grid with
/// the digits of the search taken out and every other tile untouched; from an
/// idle solver an even number of throws gives an idle solver again.
pub proof fn lemma_toggle_restores(s: SudokuView, n: nat)
    requires
        n >= 1,
    ensures
        s.toggled_n(n).cursor == 0,
        s.toggled_n(n).direction is Forward,
        s.toggled_n(n).steps == 0,
        s.toggled_n(n).tiles == cleared(s.tiles),
        s.toggled_n(n).pacing == s.pacing,
        s.toggled_n(n).difficulty == s.difficulty,
        forall|i: int|
            0 <= i < s.tiles.len() ==> !(#[trigger] s.toggled_n(n).tiles[i] is SolverVariable),
        forall|i: int|
            0 <= i < s.tiles.len() && !(s.tiles[i] is SolverVariable) ==> #[trigger] s.toggled_n(
                n,
            ).tiles[i] == s.tiles[i],
        s.state is Idle ==> (s.toggled_n(n).state is Idle <==> n % 2 == 0),
        s.state is Idle ==> (s.toggled_n(n).state is Running <==> n % 2 == 1),
    decreases n,
{
    lemma_cleared(s.tiles);
    if n == 1 {
        assert(s.toggled_n(0) == s);
    } else {
        lemma_toggle_restores(s, (n - 1) as nat);
        lemma_cleared(cleared(s.tiles));
    }
}

/// Ticking `a` times and then `b` times more is ticking `a + b` times.
pub proof fn lemma_ticks_add(s: SudokuView, a: nat, b: nat)
    ensures
        s.ticks(a).ticks(b) == s.ticks(a + b),
    decreases b,
{
    if b > 0 {
        lemma_ticks_add(s, a, (b - 1) as nat);
        assert(s.ticks(a + b) == s.ticks((a + b - 1) as nat).tick());
    }
}

/// Pacing only spreads the moves over the ticks: if a running search ends
/// within `n` moves, then after the returned number of ticks the solver
/// stands where those `n` moves lead, at whatever rate it is paced.
pub proof fn lemma_ticks_reach_the_end(s: SudokuView, n: nat) -> (m: nat)
    requires
        s.wf(),
        s.state is Running,
        !(s.run(n).state is Running),
    ensures
        s.ticks(m).same_search(s.run(n)),
    decreases n, 200 - s.pacing.substeps,
{
    let moves = s.pacing.budget() as nat;
    let paced = SudokuView { pacing: s.pacing.ticked(), ..s };
    let s1 = s.tick();
    lemma_ticked_wf(s.pacing);
    assert(s.ticks(0) == s);
    assert(s.ticks(1) == s1);
    lemma_run_deterministic(paced, s, moves);
    lemma_run_wf(paced, moves);
    lemma_run_keeps_pacing(paced, moves);
    if moves <= n {
        lemma_run_add(s, moves, (n - moves) as nat);
    } else {
        lemma_run_add(s, n, (moves - n) as nat);
        lemma_run_stopped(s.run(n), (moves - n) as nat);
    }
    if !(s1.state is Running) {
        if moves <= n {
            lemma_run_stopped(s.run(moves), (n - moves) as nat);
        }
        1
    } else {
        if s.pacing.rate < RATE_UNIT {
            lemma_period_bounds(s.pacing.rate);
        }
        assert(s.run(0) == s);
        lemma_run_deterministic(s1, s.run(moves), (n - moves) as nat);
        let rest = lemma_ticks_reach_the_end(s1, (n - moves) as nat);
        lemma_ticks_add(s, 1, rest);
        1 + rest
    }
}

/// Termination and correctness under pacing: on a puzzle with exactly one
/// solution, a fresh search that is ticked again and again ends, at whatever
/// rate, with that solution in the grid.
pub proof fn lemma_unique_solution_is_found_by_ticks(s: SudokuView, solution: Seq<Tile>) -> (m:
    nat)
    requires
        s.fresh(),
        completes(solution, s.tiles),
        forall|t: Seq<Tile>| #[trigger] completes(t, s.tiles) ==> t == solution,
    ensures
        s.ticks(m).state is SolutionFound,
        s.ticks(m).tiles == solution,
        complete(s.ticks(m).tiles),
{
    let n = lemma_unique_solution_is_found(s, solution);
    lemma_ticks_reach_the_end(s, n)
}

} // verus!
