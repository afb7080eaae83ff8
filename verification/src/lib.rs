//! A resumable, speed-controlled backtracking engine for 9×9 Sudoku.
//!
//! The search is an explicit state machine: a cursor, a direction and the
//! grid itself hold all progress, so a caller may run it a few moves per
//! tick, pause it, reset it, or edit the grid between runs.
//!
//! * `tile`, `difficulty`: the small enums.
//! * `board`, `bits`: the geometry of the grid, and sets of digits as masks.
//! * `pacing`: how many moves fall due on a tick.
//! * `model`: the solver as a mathematical state machine.
//! * `sudoku`, `solver`, `loader`: the executable solver.
//! * `search`, `laws`: what is proved of the search as a whole.

pub mod bits;
pub mod board;
pub mod difficulty;
pub mod laws;
pub mod loader;
pub mod model;
pub mod pacing;
pub mod search;
pub mod solver;
pub mod sudoku;
pub mod tile;
