use sudoku_engine::sudoku::{squares, Sudoku};
use sudoku_engine::tile::{Direction, SolverState, Tile};

const CLASSIC: &str =
    "530070000600195000098000060800060003400803001700020006060000280000419005000080079";

fn digits(s: &Sudoku) -> String {
    (0..81).map(|i| char::from(b'0' + s.get(i).value())).collect()
}

fn loaded(line: &str) -> Sudoku {
    Sudoku::new().from_line(line).unwrap()
}

#[test]
fn a_new_solver_is_idle_on_an_empty_grid() {
    let s = Sudoku::new();
    assert_eq!(s.state(), SolverState::Idle);
    assert!(!s.is_running());
    assert_eq!(s.active_index(), 0);
    assert_eq!(s.step_count(), 0);
    assert_eq!(s.direction(), Direction::Forward);
    assert_eq!(s.difficulty(), sudoku_engine::difficulty::Difficulty::Medium);
    assert_eq!(s.pacing().rate(), 1_000_000);
    assert!((0..81).all(|i| s.get(i) == Tile::Empty));
    assert!(!s.is_complete());
    let d = Sudoku::default();
    assert_eq!(digits(&d), digits(&s));
    assert_eq!(d.state(), SolverState::Idle);
}

#[test]
fn try_insert_never_overwrites_a_clue() {
    let mut s = loaded(CLASSIC);
    assert!(!s.try_insert(0, Tile::PlayerVariable(1)));
    assert!(!s.try_insert(0, Tile::Empty));
    assert!(!s.try_insert(0, Tile::Const(5)));
    assert_eq!(digits(&s), CLASSIC);
    assert_eq!(s.get(0), Tile::Const(5));
}

#[test]
fn try_insert_refuses_a_digit_used_in_the_row_the_column_or_the_box() {
    let mut s = loaded(CLASSIC);
    assert!(!s.try_insert(2, Tile::PlayerVariable(7)));
    assert!(!s.try_insert(2, Tile::PlayerVariable(8)));
    assert!(!s.try_insert(2, Tile::PlayerVariable(6)));
    assert_eq!(digits(&s), CLASSIC);
    assert!(s.try_insert(2, Tile::PlayerVariable(4)));
    assert_eq!(s.get(2), Tile::PlayerVariable(4));
    assert!(!s.try_insert(2, Tile::PlayerVariable(4)));
    assert!(s.try_insert(2, Tile::PlayerVariable(1)));
    assert_eq!(s.get(2), Tile::PlayerVariable(1));
    assert!(s.try_insert(2, Tile::Empty));
    assert_eq!(digits(&s), CLASSIC);
}

#[test]
fn try_insert_refuses_digits_that_are_not_from_1_to_9() {
    let mut s = Sudoku::new();
    assert!(!s.try_insert(40, Tile::PlayerVariable(0)));
    assert!(!s.try_insert(40, Tile::PlayerVariable(10)));
    assert!(!s.try_insert(40, Tile::SolverVariable(200)));
    assert!(!s.try_insert(40, Tile::Const(255)));
    assert_eq!(s.get(40), Tile::Empty);
    assert!(s.try_insert(40, Tile::PlayerVariable(9)));
    assert!(s.try_insert(41, Tile::Const(1)));
    assert!(s.try_insert(42, Tile::SolverVariable(5)));
    assert_eq!(s.get(40), Tile::PlayerVariable(9));
    assert_eq!(s.get(41), Tile::Const(1));
    assert_eq!(s.get(42), Tile::SolverVariable(5));
}

#[test]
fn try_insert_keeps_the_grid_free_of_conflicts() {
    let mut s = Sudoku::new();
    for cell in 0..81 {
        for digit in 1..=9u8 {
            s.try_insert(cell, Tile::PlayerVariable(digit));
        }
    }
    for i in 0..81 {
        for j in squares(i) {
            if i != j && s.get(i) != Tile::Empty {
                assert_ne!(s.get(i).value(), s.get(j).value());
            }
        }
    }
}

#[test]
fn clear_variables_takes_out_the_digits_of_the_search_only() {
    let mut s = loaded(CLASSIC);
    assert!(s.try_insert(2, Tile::PlayerVariable(4)));
    assert!(s.try_insert(3, Tile::SolverVariable(6)));
    assert!(s.try_insert(80 - 8, Tile::SolverVariable(3)));
    s.clear_variables();
    assert_eq!(s.get(2), Tile::PlayerVariable(4));
    assert_eq!(s.get(3), Tile::Empty);
    assert_eq!(s.get(72), Tile::Empty);
    assert_eq!(s.get(0), Tile::Const(5));
    s.clear_variables();
    assert_eq!(s.get(2), Tile::PlayerVariable(4));
    assert_eq!(s.get(3), Tile::Empty);
}

#[test]
fn reset_solver_leaves_the_grid() {
    let mut s = loaded(CLASSIC);
    s.start();
    s.run_steps(100);
    let grid = digits(&s);
    s.reset_solver();
    assert_eq!(s.state(), SolverState::Idle);
    assert_eq!(s.active_index(), 0);
    assert_eq!(s.step_count(), 0);
    assert_eq!(s.direction(), Direction::Forward);
    assert_eq!(digits(&s), grid);
}

#[test]
fn stop_and_start_always_restore_the_starting_position() {
    let mut s = loaded(CLASSIC);
    assert!(s.try_insert(2, Tile::PlayerVariable(4)));
    let start = digits(&s);
    for round in 0..5 {
        s.start();
        assert_eq!(s.state(), SolverState::Running);
        assert_eq!(s.active_index(), 0);
        assert_eq!(s.direction(), Direction::Forward);
        assert_eq!(s.step_count(), 0);
        assert_eq!(digits(&s), start);
        s.run_steps(37 * (round + 1));
        assert_ne!(digits(&s), start);
        s.stop();
        assert_eq!(s.state(), SolverState::Idle);
        assert_eq!(s.active_index(), 0);
        assert_eq!(s.direction(), Direction::Forward);
        assert_eq!(s.step_count(), 0);
        assert_eq!(digits(&s), start);
        assert_eq!(s.get(2), Tile::PlayerVariable(4));
        assert_eq!(s.get(0), Tile::Const(5));
        s.stop();
        assert_eq!(digits(&s), start);
        assert_eq!(s.state(), SolverState::Idle);
    }
}

#[test]
fn toggle_starts_an_idle_solver_and_stops_every_other() {
    let mut s = loaded(CLASSIC);
    s.toggle();
    assert_eq!(s.state(), SolverState::Running);
    s.run_steps(20);
    s.toggle();
    assert_eq!(s.state(), SolverState::Idle);
    assert_eq!(digits(&s), CLASSIC);
    assert_eq!(s.active_index(), 0);
    s.toggle();
    s.run_steps(u32::MAX);
    assert_eq!(s.state(), SolverState::SolutionFound);
    s.toggle();
    assert_eq!(s.state(), SolverState::Idle);
    assert_eq!(digits(&s), CLASSIC);
    assert_eq!(s.step_count(), 0);
}

#[test]
fn try_write_tile_edits_outside_a_running_search_only() {
    let mut s = loaded(CLASSIC);
    s.start();
    s.run_steps(30);
    let running = digits(&s);
    assert!(!s.try_write_tile(Some(2), Tile::PlayerVariable(4)));
    assert_eq!(digits(&s), running);
    assert!(s.is_running());
    assert_eq!(s.step_count(), 30);
    s.run_steps(u32::MAX);
    assert_eq!(s.state(), SolverState::SolutionFound);
    assert!(s.try_write_tile(Some(2), Tile::PlayerVariable(1)));
    assert_eq!(s.state(), SolverState::Idle);
    assert_eq!(s.step_count(), 0);
    let mut expected = String::from(CLASSIC);
    expected.replace_range(2..3, "1");
    assert_eq!(digits(&s), expected);
    assert!(!s.try_write_tile(None, Tile::PlayerVariable(2)));
    assert!(!s.try_write_tile(Some(0), Tile::Empty));
    assert!(!s.try_write_tile(Some(3), Tile::PlayerVariable(7)));
    assert!(s.try_write_tile(Some(2), Tile::Empty));
    assert_eq!(digits(&s), CLASSIC);
}

#[test]
fn clear_result_and_clear_all_wait_for_the_search_to_stop() {
    let mut s = loaded(CLASSIC);
    s.start();
    s.run_steps(30);
    let running = digits(&s);
    assert!(!s.clear_result());
    assert!(!s.clear_all());
    assert_eq!(digits(&s), running);
    assert_eq!(s.step_count(), 30);
    s.run_steps(u32::MAX);
    assert!(s.clear_result());
    assert_eq!(digits(&s), CLASSIC);
    assert_eq!(s.state(), SolverState::Idle);
    assert!(s.clear_all());
    assert!((0..81).all(|i| s.get(i) == Tile::Empty));
    assert_eq!(s.state(), SolverState::Idle);
    assert_eq!(s.active_index(), 0);
}

#[test]
fn load_takes_a_well_formed_grid_only() {
    let mut s = loaded(CLASSIC);
    s.start();
    s.run_steps(12);
    let mut tiles = [Tile::Empty; 81];
    tiles[0] = Tile::Const(9);
    tiles[1] = Tile::PlayerVariable(9);
    tiles[80] = Tile::SolverVariable(1);
    assert!(s.load(tiles));
    assert_eq!(s.state(), SolverState::Idle);
    assert_eq!(s.step_count(), 0);
    assert_eq!(s.active_index(), 0);
    assert_eq!(s.get(0), Tile::Const(9));
    assert_eq!(s.get(1), Tile::PlayerVariable(9));
    assert_eq!(s.get(80), Tile::SolverVariable(1));
    tiles[40] = Tile::Const(0);
    s.start();
    assert!(!s.load(tiles));
    assert!(s.is_running());
    assert_eq!(s.get(40), Tile::Empty);
    tiles[40] = Tile::PlayerVariable(10);
    assert!(!s.load(tiles));
}

#[test]
fn squares_lists_the_row_the_column_and_the_box() {
    let cells = squares(40);
    assert_eq!(
        cells,
        vec![
            36, 37, 38, 39, 40, 41, 42, 43, 44, 4, 13, 22, 31, 40, 49, 58, 67, 76, 30, 31, 32, 39,
            40, 41, 48, 49, 50
        ]
    );
    assert_eq!(
        squares(80),
        vec![
            72, 73, 74, 75, 76, 77, 78, 79, 80, 8, 17, 26, 35, 44, 53, 62, 71, 80, 60, 61, 62, 69,
            70, 71, 78, 79, 80
        ]
    );
    assert_eq!(&squares(0)[18..27], &[0, 1, 2, 9, 10, 11, 18, 19, 20]);
}
