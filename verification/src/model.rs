//! The solver as a mathematical state machine.
//!
//! `SudokuView` is the state; `advance` is one move of the search; `run` is a
//! number of moves in a row. The executable solver is specified against
//! these.

use vstd::prelude::*;
use crate::board::{
    cleared, complete, conflict_free, grid_wf, lemma_next_free_digit,
    lemma_place_keeps_conflict_free, lookahead_ok, next_free_digit,
};
use crate::difficulty::Difficulty;
use crate::pacing::PacingView;
use crate::tile::{Direction, SolverState, Tile};

verus! {

/// The state of a solver: the grid, the cursor with its direction, the
/// status, the count of moves made, and the pacing.
pub struct SudokuView {
    pub tiles: Seq<Tile>,
    pub difficulty: Difficulty,
    pub cursor: int,
    pub state: SolverState,
    pub steps: int,
    pub direction: Direction,
    pub pacing: PacingView,
}

impl SudokuView {
    /// The grid is well formed, the cursor lies between 0 and 81, and the
    /// counters are in range.
    pub open spec fn wf(self) -> bool {
        &&& grid_wf(self.tiles)
        &&& 0 <= self.cursor <= 81
        &&& 0 <= self.steps <= u64::MAX
        &&& self.pacing.wf()
    }

    /// The state with one more move counted. The count stops at `u64::MAX`.
    pub open spec fn counted(self) -> SudokuView {
        SudokuView {
            steps: if self.steps < u64::MAX {
                self.steps + 1
            } else {
                self.steps
            },
            ..self
        }
    }

    /// The cursor moves one cell in the current direction. Moving back from
    /// cell 0 ends the search without a solution.
    pub open spec fn walk(self) -> SudokuView {
        match self.direction {
            Direction::Forward => SudokuView { cursor: self.cursor + 1, ..self },
            Direction::Backward => self.retreat(),
        }
    }

    /// The cursor moves one cell back and the direction turns backward. From
    /// cell 0 the search ends without a solution instead.
    pub open spec fn retreat(self) -> SudokuView {
        if self.cursor == 0 {
            SudokuView { direction: Direction::Backward, state: SolverState::NoSolution, ..self }
        } else {
            SudokuView { cursor: self.cursor - 1, direction: Direction::Backward, ..self }
        }
    }

    /// Digit `d` is written at the cursor as a digit of the search; the
    /// direction turns forward if the lookahead passes, backward if not.
    pub open spec fn assign(self, d: int) -> SudokuView {
        let tiles = self.tiles.update(self.cursor, Tile::SolverVariable(d as u8));
        SudokuView {
            tiles,
            direction: if lookahead_ok(tiles, self.cursor) {
                Direction::Forward
            } else {
                Direction::Backward
            },
            ..self
        }
    }

    /// The cell at the cursor is emptied.
    pub open spec fn erase(self) -> SudokuView {
        SudokuView { tiles: self.tiles.update(self.cursor, Tile::Empty), ..self }
    }

    /// One move of the search.
    ///
    /// Nothing happens unless the solver is running. With the cursor past the
    /// last cell the search ends: with a solution if the grid is complete,
    /// without one if not. Otherwise the move is counted, and: the cursor
    /// walks past a clue or a hand-entered digit; it steps forward from a
    /// digit of the search when the direction is forward; else the least
    /// unused digit above the present one is written, or, if there is none,
    /// the cell is emptied and the cursor retreats.
    pub open spec fn advance(self) -> SudokuView {
        if !(self.state is Running) {
            self
        } else if self.cursor >= 81 {
            SudokuView {
                state: if complete(self.tiles) {
                    SolverState::SolutionFound
                } else {
                    SolverState::NoSolution
                },
                ..self
            }
        } else {
            let tile = self.tiles[self.cursor];
            let next = next_free_digit(self.tiles, self.cursor, tile.digit());
            if tile.is_fixed() {
                self.counted().walk()
            } else if tile is SolverVariable && self.direction is Forward {
                SudokuView { cursor: self.cursor + 1, ..self.counted() }
            } else if next <= 9 {
                self.counted().assign(next)
            } else {
                self.counted().erase().retreat()
            }
        }
    }

    /// `n` moves of the search in a row.
    pub open spec fn run(self, n: nat) -> SudokuView
        decreases n,
    {
        if n == 0 {
            self
        } else {
            self.run((n - 1) as nat).advance()
        }
    }

    /// One tick of the caller: while the solver runs, the pacing counts the
    /// tick and the moves that fall due on it are made. An idle or finished
    /// solver ignores the tick.
    pub open spec fn tick(self) -> SudokuView {
        if self.state is Running {
            (SudokuView { pacing: self.pacing.ticked(), ..self }).run(self.pacing.budget() as nat)
        } else {
            self
        }
    }

    /// The state after the start/stop switch is thrown: an idle solver starts
    /// afresh; in every other state the solver stops and clears its result.
    pub open spec fn toggled(self) -> SudokuView {
        self.rewound(
            if self.state is Idle {
                SolverState::Running
            } else {
                SolverState::Idle
            },
        )
    }

    /// The state after the start/stop switch is thrown `n` times.
    pub open spec fn toggled_n(self, n: nat) -> SudokuView
        decreases n,
    {
        if n == 0 {
            self
        } else {
            self.toggled_n((n - 1) as nat).toggled()
        }
    }

    /// The solver stands where a search starts: running, on cell 0, facing
    /// forward, with no digit of a search in the grid.
    pub open spec fn fresh(self) -> bool {
        &&& self.wf()
        &&& self.state is Running
        &&& self.cursor == 0
        &&& self.direction is Forward
        &&& forall|i: int| 0 <= i < 81 ==> !(#[trigger] self.tiles[i] is SolverVariable)
    }

    /// The two states agree in all that the search reads and writes: grid,
    /// cursor, direction and status.
    pub open spec fn same_search(self, other: SudokuView) -> bool {
        &&& self.tiles == other.tiles
        &&& self.cursor == other.cursor
        &&& self.direction == other.direction
        &&& self.state == other.state
    }

    /// The state after `n` ticks of the caller.
    pub open spec fn ticks(self, n: nat) -> SudokuView
        decreases n,
    {
        if n == 0 {
            self
        } else {
            self.ticks((n - 1) as nat).tick()
        }
    }

    /// The state after a puzzle is loaded: the new grid, the cursor on cell 0
    /// facing forward, the solver idle, nothing counted. The difficulty and
    /// the rate stay.
    pub open spec fn loaded(self, tiles: Seq<Tile>) -> SudokuView {
        SudokuView {
            tiles,
            cursor: 0,
            steps: 0,
            direction: Direction::Forward,
            state: SolverState::Idle,
            pacing: PacingView { substeps: 0, ..self.pacing },
            ..self
        }
    }

    /// The state from which a search starts: the digits of an earlier search
    /// are taken out, the cursor stands on cell 0 facing forward, and no move
    /// is counted.
    pub open spec fn rewound(self, state: SolverState) -> SudokuView {
        SudokuView {
            tiles: cleared(self.tiles),
            cursor: 0,
            steps: 0,
            direction: Direction::Forward,
            state,
            ..self
        }
    }
}

/// A move keeps a well-formed state well formed.
pub proof fn lemma_advance_wf(s: SudokuView)
    requires
        s.wf(),
    ensures
        s.advance().wf(),
{
    if s.state is Running && s.cursor < 81 {
        let tile = s.tiles[s.cursor];
        assert(tile.wf());
        lemma_next_free_digit(s.tiles, s.cursor, tile.digit());
        let next = next_free_digit(s.tiles, s.cursor, tile.digit());
        if next <= 9 {
            assert(Tile::SolverVariable(next as u8).wf());
        }
    }
}

/// Any number of moves keeps a well-formed state well formed.
pub proof fn lemma_run_wf(s: SudokuView, n: nat)
    requires
        s.wf(),
    ensures
        s.run(n).wf(),
    decreases n,
{
    if n > 0 {
        lemma_run_wf(s, (n - 1) as nat);
        lemma_advance_wf(s.run((n - 1) as nat));
    }
}

/// Running one move is advancing once.
pub proof fn lemma_run_one(s: SudokuView)
    ensures
        s.run(1) == s.advance(),
{
    assert(s.run(0) == s);
}

/// Running `a` moves and then `b` more is running `a + b` moves.
pub proof fn lemma_run_add(s: SudokuView, a: nat, b: nat)
    ensures
        s.run(a).run(b) == s.run(a + b),
    decreases b,
{
    if b > 0 {
        lemma_run_add(s, a, (b - 1) as nat);
        assert(s.run(a + b) == s.run((a + b - 1) as nat).advance());
    }
}

/// Once the solver is not running, further moves change nothing.
pub proof fn lemma_run_stopped(s: SudokuView, n: nat)
    requires
        !(s.state is Running),
    ensures
        s.run(n) == s,
    decreases n,
{
    if n > 0 {
        lemma_run_stopped(s, (n - 1) as nat);
    }
}

/// A move never puts two equal digits into one row, column or box.
pub proof fn lemma_advance_keeps_conflict_free(s: SudokuView)
    requires
        s.wf(),
        conflict_free(s.tiles),
    ensures
        conflict_free(s.advance().tiles),
{
    if s.state is Running && s.cursor < 81 {
        let tile = s.tiles[s.cursor];
        assert(tile.wf());
        lemma_next_free_digit(s.tiles, s.cursor, tile.digit());
        let next = next_free_digit(s.tiles, s.cursor, tile.digit());
        if !tile.is_fixed() && !(tile is SolverVariable && s.direction is Forward) {
            if next <= 9 {
                lemma_place_keeps_conflict_free(s.tiles, s.cursor, Tile::SolverVariable(next as u8));
            } else {
                lemma_place_keeps_conflict_free(s.tiles, s.cursor, Tile::Empty);
            }
        }
    }
}

/// No number of moves puts two equal digits into one row, column or box.
pub proof fn lemma_run_keeps_conflict_free(s: SudokuView, n: nat)
    requires
        s.wf(),
        conflict_free(s.tiles),
    ensures
        conflict_free(s.run(n).tiles),
    decreases n,
{
    if n > 0 {
        lemma_run_keeps_conflict_free(s, (n - 1) as nat);
        lemma_run_wf(s, (n - 1) as nat);
        lemma_advance_keeps_conflict_free(s.run((n - 1) as nat));
    }
}

} // verus!
