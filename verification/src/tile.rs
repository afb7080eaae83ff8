//! The cell contents of a grid and the two small enums of the solver.

use vstd::prelude::*;

verus! {

/// Whether the cursor advances or retreats on the next move.
#[derive(PartialEq, Eq, Clone, Copy, Debug, Structural)]
pub enum Direction {
    Forward,
    Backward,
}

/// What one cell of the grid holds.
///
/// `Const` is a clue of the puzzle, `PlayerVariable` a digit entered by hand,
/// `SolverVariable` a digit placed by the search. Digits are 1 to 9.
#[derive(PartialEq, Eq, Clone, Copy, Debug, Structural)]
pub enum Tile {
    Empty,
    SolverVariable(u8),
    PlayerVariable(u8),
    Const(u8),
}

impl Tile {
    /// The digit the tile carries, 0 for `Empty`.
    pub open spec fn digit(self) -> int {
        match self {
            Tile::Empty => 0,
            Tile::SolverVariable(n) => n as int,
            Tile::PlayerVariable(n) => n as int,
            Tile::Const(n) => n as int,
        }
    }

    /// A tile is well formed when it is empty or carries a digit from 1 to 9.
    pub open spec fn wf(self) -> bool {
        self is Empty || 1 <= self.digit() <= 9
    }

    /// Clues and hand-entered digits: the search walks past them.
    pub open spec fn is_fixed(self) -> bool {
        self is Const || self is PlayerVariable
    }

    /// The digit the tile carries, 0 for `Empty`.
    pub fn value(&self) -> (d: u8)
        ensures
            d == self.digit(),
    {
        match self {
            Tile::Empty => 0,
            Tile::SolverVariable(n) => *n,
            Tile::PlayerVariable(n) => *n,
            Tile::Const(n) => *n,
        }
    }

    /// Whether the tile is empty or carries a digit from 1 to 9.
    pub fn is_well_formed(&self) -> (ok: bool)
        ensures
            ok == self.wf(),
    {
        match self {
            Tile::Empty => true,
            Tile::SolverVariable(n) | Tile::PlayerVariable(n) | Tile::Const(n) => 1 <= *n && *n <= 9,
        }
    }
}

/// Where the solver stands.
#[derive(PartialEq, Eq, Clone, Copy, Debug, Structural)]
pub enum SolverState {
    Idle,
    Running,
    SolutionFound,
    NoSolution,
}

impl SolverState {
    /// The display name of the state.
    pub open spec fn name(self) -> Seq<char> {
        match self {
            SolverState::Running => "Running"@,
            SolverState::Idle => "Idle"@,
            SolverState::SolutionFound => "Solution Found"@,
            SolverState::NoSolution => "No Solution"@,
        }
    }

    /// The two states in which a search has ended.
    pub open spec fn is_terminal(self) -> bool {
        self is SolutionFound || self is NoSolution
    }

    pub fn to_string(&self) -> (s: &str)
        ensures
            s@ == self.name(),
    {
        match self {
            SolverState::Running => "Running",
            SolverState::Idle => "Idle",
            SolverState::SolutionFound => "Solution Found",
            SolverState::NoSolution => "No Solution",
        }
    }
}

} // verus!
