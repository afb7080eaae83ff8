use sudoku_engine::difficulty::Difficulty;
use sudoku_engine::tile::{SolverState, Tile};

#[test]
fn difficulties_have_names() {
    assert_eq!(Difficulty::Easy.to_string(), "Easy");
    assert_eq!(Difficulty::Medium.to_string(), "Medium");
    assert_eq!(Difficulty::Hard.to_string(), "Hard");
    assert_eq!(Difficulty::VeryHard.to_string(), "Very Hard");
}

#[test]
fn harder_stops_at_the_top() {
    assert_eq!(Difficulty::Easy.harder(), Difficulty::Medium);
    assert_eq!(Difficulty::Medium.harder(), Difficulty::Hard);
    assert_eq!(Difficulty::Hard.harder(), Difficulty::VeryHard);
    assert_eq!(Difficulty::VeryHard.harder(), Difficulty::VeryHard);
}

#[test]
fn easier_stops_at_the_bottom() {
    assert_eq!(Difficulty::VeryHard.easier(), Difficulty::Hard);
    assert_eq!(Difficulty::Hard.easier(), Difficulty::Medium);
    assert_eq!(Difficulty::Medium.easier(), Difficulty::Easy);
    assert_eq!(Difficulty::Easy.easier(), Difficulty::Easy);
}

#[test]
fn solver_states_have_names() {
    assert_eq!(SolverState::Idle.to_string(), "Idle");
    assert_eq!(SolverState::Running.to_string(), "Running");
    assert_eq!(SolverState::SolutionFound.to_string(), "Solution Found");
    assert_eq!(SolverState::NoSolution.to_string(), "No Solution");
}

#[test]
fn tiles_carry_their_digit() {
    assert_eq!(Tile::Empty.value(), 0);
    assert_eq!(Tile::Const(7).value(), 7);
    assert_eq!(Tile::PlayerVariable(1).value(), 1);
    assert_eq!(Tile::SolverVariable(9).value(), 9);
    assert!(Tile::Empty.is_well_formed());
    assert!(Tile::Const(1).is_well_formed());
    assert!(Tile::SolverVariable(9).is_well_formed());
    assert!(!Tile::PlayerVariable(0).is_well_formed());
    assert!(!Tile::Const(10).is_well_formed());
}
