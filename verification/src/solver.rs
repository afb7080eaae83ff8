//! Running the search: one move, a number of moves, one tick of the caller.

use vstd::prelude::*;
use crate::board::conflict_free;
use crate::model::{
    lemma_advance_keeps_conflict_free, lemma_advance_wf, lemma_run_keeps_conflict_free,
    lemma_run_stopped, lemma_run_wf, SudokuView,
};
use crate::sudoku::Sudoku;
use crate::tile::{Direction, SolverState, Tile};

verus! {

impl Sudoku {
    /// Moves the cursor one cell back and turns the direction backward; from
    /// cell 0 the search ends without a solution instead.
    fn retreat(&mut self)
        ensures
            final(self)@ == old(self)@.retreat(),
    {
        self.direction = Direction::Backward;
        if self.active_indx == 0 {
            self.state = SolverState::NoSolution;
        } else {
            self.active_indx -= 1;
        }
    }

    /// One move of the search. Nothing happens unless the solver is running.
    pub fn step_once(&mut self)
        requires
            old(self).wf(),
        ensures
            final(self).wf(),
            final(self)@ == old(self)@.advance(),
            conflict_free(old(self)@.tiles) ==> conflict_free(final(self)@.tiles),
    {
        proof {
            lemma_advance_wf(self@);
            if conflict_free(self@.tiles) {
                lemma_advance_keeps_conflict_free(self@);
            }
        }
        if !self.is_running() {
            return ;
        }
        if self.active_indx >= 81 {
            self.state = if self.is_complete() {
                SolverState::SolutionFound
            } else {
                SolverState::NoSolution
            };
            return ;
        }
        if self.step_count < u64::MAX {
            self.step_count += 1;
        }
        let cursor = self.active_indx;
        let tile = self.tiles[cursor];
        let forward = match self.direction {
            Direction::Forward => true,
            Direction::Backward => false,
        };
        match tile {
            Tile::Const(_) | Tile::PlayerVariable(_) => {
                if forward {
                    self.active_indx += 1;
                } else {
                    self.retreat();
                }
            },
            Tile::SolverVariable(_) if forward => {
                self.active_indx += 1;
            },
            _ => {
                match self.next_available_number(cursor) {
                    Some(digit) => {
                        self.tiles[cursor] = Tile::SolverVariable(digit);
                        self.direction = if self.solution_possible(cursor) {
                            Direction::Forward
                        } else {
                            Direction::Backward
                        };
                    },
                    None => {
                        self.tiles[cursor] = Tile::Empty;
                        self.retreat();
                    },
                }
            },
        }
    }

    /// Up to `moves` moves of the search in a row; the search stops early
    /// when it ends.
    pub fn run_steps(&mut self, moves: u32)
        requires
            old(self).wf(),
        ensures
            final(self).wf(),
            final(self)@ == old(self)@.run(moves as nat),
            conflict_free(old(self)@.tiles) ==> conflict_free(final(self)@.tiles),
    {
        let ghost before = self@;
        let mut done: u32 = 0;
        while done < moves
            invariant
                done <= moves,
                self.wf(),
                before.wf(),
                self@ == before.run(done as nat),
            decreases moves - done,
        {
            if !self.is_running() {
                proof {
                    lemma_run_stopped(self@, (moves - done) as nat);
                    crate::model::lemma_run_add(before, done as nat, (moves - done) as nat);
                }
                done = moves;
            } else {
                self.step_once();
                done += 1;
            }
        }
        proof {
            if conflict_free(before.tiles) {
                lemma_run_keeps_conflict_free(before, moves as nat);
            }
            lemma_run_wf(before, moves as nat);
        }
    }

    /// One tick of the caller: while the solver runs, the pacing counts the
    /// tick and the moves that fall due on it are made. An idle or finished
    /// solver ignores the tick.
    pub fn step(&mut self)
        requires
            old(self).wf(),
        ensures
            final(self).wf(),
            final(self)@ == old(self)@.tick(),
            conflict_free(old(self)@.tiles) ==> conflict_free(final(self)@.tiles),
    {
        if self.is_running() {
            let moves = self.pacing.tick();
            self.run_steps(moves);
        }
    }
}

} // verus!
