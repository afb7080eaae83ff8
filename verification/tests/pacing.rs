use sudoku_engine::pacing::{Pacing, MAX_RATE, MIN_RATE, RATE_UNIT};
use sudoku_engine::sudoku::Sudoku;

fn paced(multiplier: u64) -> Pacing {
    let mut p = Pacing::new();
    p.scale(multiplier);
    p
}

#[test]
fn one_move_per_tick_to_begin_with() {
    let mut p = Pacing::new();
    assert_eq!(p.rate(), RATE_UNIT);
    assert_eq!(p.substeps(), 0);
    for _ in 0..5 {
        assert_eq!(p.tick(), 1);
        assert_eq!(p.substeps(), 0);
    }
    assert_eq!(p.effective_rate(), (1, 1));
}

#[test]
fn a_tenth_of_a_move_per_tick_runs_one_move_on_every_tenth_tick() {
    let mut p = paced(100_000);
    assert_eq!(p.rate(), 100_000);
    for tick in 1..=100 {
        let expected = if tick % 10 == 0 { 1 } else { 0 };
        assert_eq!(p.tick(), expected, "tick {}", tick);
    }
}

#[test]
fn three_point_seven_moves_per_tick_run_three_moves_on_every_tick() {
    let mut p = paced(3_700_000);
    assert_eq!(p.rate(), 3_700_000);
    for _ in 0..20 {
        assert_eq!(p.tick(), 3);
    }
    assert_eq!(p.effective_rate(), (3, 1));
}

#[test]
fn the_rate_is_clamped() {
    assert_eq!(paced(0).rate(), MIN_RATE);
    assert_eq!(paced(1).rate(), MIN_RATE);
    assert_eq!(paced(4_999).rate(), MIN_RATE);
    assert_eq!(paced(5_000).rate(), 5_000);
    assert_eq!(paced(5_001).rate(), 5_001);
    assert_eq!(paced(100_000_000_000).rate(), MAX_RATE);
    assert_eq!(paced(100_000_000_001).rate(), MAX_RATE);
    assert_eq!(paced(u64::MAX).rate(), MAX_RATE);
    let mut p = paced(u64::MAX);
    p.scale(u64::MAX);
    assert_eq!(p.rate(), MAX_RATE);
    assert_eq!(p.tick(), 100_000);
    let mut q = paced(0);
    q.scale(0);
    assert_eq!(q.rate(), 5_000);
}

#[test]
fn changes_of_rate_multiply() {
    let mut p = Pacing::new();
    p.scale(2_000_000);
    p.scale(2_000_000);
    assert_eq!(p.rate(), 4_000_000);
    p.scale(250_000);
    assert_eq!(p.rate(), 1_000_000);
    p.scale(1_500_000);
    p.scale(1_500_000);
    assert_eq!(p.rate(), 2_250_000);
    assert_eq!(p.tick(), 2);
    p.scale(333_333);
    assert_eq!(p.rate(), 749_999);
}

#[test]
fn the_slowest_rate_runs_one_move_in_two_hundred_ticks() {
    let mut p = paced(0);
    for tick in 1..=400 {
        let expected = if tick % 200 == 0 { 1 } else { 0 };
        assert_eq!(p.tick(), expected);
    }
    assert_eq!(p.effective_rate(), (1, 201));
}

#[test]
fn the_rate_shown_below_one_move_per_tick() {
    assert_eq!(paced(100_000).effective_rate(), (1, 11));
    assert_eq!(paced(500_000).effective_rate(), (1, 3));
    assert_eq!(paced(999_999).effective_rate(), (1, 2));
    assert_eq!(paced(1_999_999).effective_rate(), (1, 1));
    assert_eq!(paced(100_000_000_000).effective_rate(), (100_000, 1));
}

#[test]
fn just_below_one_move_per_tick_every_tick_runs_a_move() {
    let mut p = paced(600_000);
    for _ in 0..10 {
        assert_eq!(p.tick(), 1);
    }
    let mut q = paced(500_000);
    assert_eq!((q.tick(), q.tick(), q.tick(), q.tick()), (0, 1, 0, 1));
}

#[test]
fn restart_forgets_the_ticks_counted() {
    let mut p = paced(100_000);
    for _ in 0..7 {
        p.tick();
    }
    assert_eq!(p.substeps(), 7);
    p.restart();
    assert_eq!(p.substeps(), 0);
    assert_eq!(p.rate(), 100_000);
}

#[test]
fn a_raised_rate_lets_a_long_count_fire_at_once() {
    let mut p = paced(10_000);
    for _ in 0..50 {
        assert_eq!(p.tick(), 0);
    }
    p.scale(10_000_000);
    assert_eq!(p.rate(), 100_000);
    assert_eq!(p.tick(), 1);
    assert_eq!(p.substeps(), 0);
}

#[test]
fn the_solver_runs_the_moves_that_fall_due() {
    let line = "530070000600195000098000060800060003400803001700020006060000280000419005000080079";
    let mut s = Sudoku::new().from_line(line).unwrap();
    s.change_steps_per_frame(100_000);
    s.start();
    for tick in 1..=30u64 {
        s.step();
        assert_eq!(s.step_count(), tick / 10);
    }
    s.change_steps_per_frame(37_000_000);
    assert_eq!(s.pacing().rate(), 3_700_000);
    for tick in 1..=10u64 {
        s.step();
        assert_eq!(s.step_count(), 3 + 3 * tick);
    }
}
