use sudoku_engine::difficulty::Difficulty;
use sudoku_engine::loader::{tile_from_char, Corpus, FormatError, LoadError};
use sudoku_engine::sudoku::Sudoku;
use sudoku_engine::tile::{Direction, SolverState, Tile};

const CLASSIC: &str =
    "530070000600195000098000060800060003400803001700020006060000280000419005000080079";
const OTHER: &str =
    "003020600900305001001806400008102900700000008006708200002609500800203009005010300";

fn digits(s: &Sudoku) -> String {
    (0..81).map(|i| char::from(b'0' + s.get(i).value())).collect()
}

fn corpus(easy: &[&str], medium: &[&str], hard: &[&str], very_hard: &[&str]) -> Corpus {
    let own = |lines: &[&str]| lines.iter().map(|l| l.to_string()).collect::<Vec<String>>();
    Corpus { easy: own(easy), medium: own(medium), hard: own(hard), very_hard: own(very_hard) }
}

#[test]
fn a_line_of_digits_becomes_clues_and_empty_cells() {
    let s = Sudoku::new().from_line(CLASSIC).unwrap();
    assert_eq!(s.get(0), Tile::Const(5));
    assert_eq!(s.get(1), Tile::Const(3));
    assert_eq!(s.get(2), Tile::Empty);
    assert_eq!(s.get(4), Tile::Const(7));
    assert_eq!(s.get(79), Tile::Const(7));
    assert_eq!(s.get(80), Tile::Const(9));
    assert_eq!(digits(&s), CLASSIC);
    assert_eq!(s.state(), SolverState::Idle);
    assert_eq!(s.active_index(), 0);
    assert_eq!(s.direction(), Direction::Forward);
    assert_eq!(s.step_count(), 0);
}

#[test]
fn each_character_stands_for_one_tile() {
    assert_eq!(tile_from_char('0'), Some(Tile::Empty));
    assert_eq!(tile_from_char('1'), Some(Tile::Const(1)));
    assert_eq!(tile_from_char('5'), Some(Tile::Const(5)));
    assert_eq!(tile_from_char('9'), Some(Tile::Const(9)));
    assert_eq!(tile_from_char('/'), None);
    assert_eq!(tile_from_char(':'), None);
    assert_eq!(tile_from_char('.'), None);
    assert_eq!(tile_from_char(' '), None);
    assert_eq!(tile_from_char('a'), None);
    assert_eq!(tile_from_char('٣'), None);
}

#[test]
fn a_line_of_the_wrong_length_is_reported() {
    let s = Sudoku::new();
    assert_eq!(s.from_line("").err(), Some(FormatError::WrongLength(0)));
    assert_eq!(s.from_line(&CLASSIC[..80]).err(), Some(FormatError::WrongLength(80)));
    let long = format!("{}0", CLASSIC);
    assert_eq!(s.from_line(&long).err(), Some(FormatError::WrongLength(82)));
    let long_and_bad = format!("{}x", CLASSIC);
    assert_eq!(s.from_line(&long_and_bad).err(), Some(FormatError::WrongLength(82)));
}

#[test]
fn the_first_character_that_is_no_digit_is_reported() {
    let s = Sudoku::new();
    let mut line = String::from(CLASSIC);
    line.replace_range(80..81, "x");
    assert_eq!(s.from_line(&line).err(), Some(FormatError::InvalidCharacter(80)));
    line.replace_range(17..18, ".");
    assert_eq!(s.from_line(&line).err(), Some(FormatError::InvalidCharacter(17)));
    line.replace_range(0..1, " ");
    assert_eq!(s.from_line(&line).err(), Some(FormatError::InvalidCharacter(0)));
}

#[test]
fn characters_are_counted_not_bytes() {
    let s = Sudoku::new();
    let mut line = String::from(CLASSIC);
    line.replace_range(3..4, "é");
    assert_eq!(line.len(), 82);
    assert_eq!(s.from_line(&line).err(), Some(FormatError::InvalidCharacter(3)));
}

#[test]
fn loading_keeps_the_difficulty_and_the_rate() {
    let mut s = Sudoku::new();
    s.set_difficulty(Difficulty::VeryHard);
    s.change_steps_per_frame(100_000);
    s.start();
    for _ in 0..13 {
        s.step();
    }
    assert_eq!(s.pacing().substeps(), 3);
    assert_eq!(s.load_line(CLASSIC), Ok(()));
    assert_eq!(digits(&s), CLASSIC);
    assert_eq!(s.difficulty(), Difficulty::VeryHard);
    assert_eq!(s.pacing().rate(), 100_000);
    assert_eq!(s.pacing().substeps(), 0);
    assert_eq!(s.state(), SolverState::Idle);
    assert_eq!(s.step_count(), 0);
    assert_eq!(s.active_index(), 0);
}

#[test]
fn a_bad_line_changes_nothing() {
    let mut s = Sudoku::new();
    assert_eq!(s.load_line(CLASSIC), Ok(()));
    s.start();
    s.run_steps(40);
    let grid = digits(&s);
    assert_eq!(s.load_line("12345"), Err(FormatError::WrongLength(5)));
    let bad = CLASSIC.replace('7', "-");
    assert_eq!(s.load_line(&bad), Err(FormatError::InvalidCharacter(4)));
    assert_eq!(digits(&s), grid);
    assert!(s.is_running());
    assert_eq!(s.step_count(), 40);
}

#[test]
fn a_random_puzzle_comes_from_the_list_of_the_difficulty() {
    let c = corpus(&[CLASSIC], &[OTHER], &[], &[CLASSIC, OTHER]);
    let mut s = Sudoku::new();
    assert_eq!(s.difficulty(), Difficulty::Medium);
    assert_eq!(s.load_random(&c), Ok(()));
    assert_eq!(digits(&s), OTHER);
    s.set_difficulty(Difficulty::Easy);
    assert_eq!(s.load_random(&c), Ok(()));
    assert_eq!(digits(&s), CLASSIC);
    s.set_difficulty(Difficulty::VeryHard);
    let mut seen_classic = false;
    let mut seen_other = false;
    for _ in 0..200 {
        assert_eq!(s.load_random(&c), Ok(()));
        let grid = digits(&s);
        assert!(grid == CLASSIC || grid == OTHER);
        seen_classic |= grid == CLASSIC;
        seen_other |= grid == OTHER;
    }
    assert!(seen_classic && seen_other);
}

#[test]
fn an_empty_list_is_reported() {
    let c = corpus(&[CLASSIC], &[OTHER], &[], &[CLASSIC, OTHER]);
    let mut s = Sudoku::new().from_line(CLASSIC).unwrap();
    s.set_difficulty(Difficulty::Hard);
    assert_eq!(s.load_random(&c), Err(LoadError::EmptyCorpus));
    assert_eq!(digits(&s), CLASSIC);
    assert_eq!(s.load_picked(&c, None), Err(LoadError::EmptyCorpus));
}

#[test]
fn a_picked_line_that_is_no_puzzle_is_reported_with_its_position() {
    let c = corpus(&["53007"], &[OTHER, "x", CLASSIC], &[], &[]);
    let mut s = Sudoku::new().from_line(CLASSIC).unwrap();
    assert_eq!(
        s.load_picked(&c, Some(1)),
        Err(LoadError::Format(1, FormatError::WrongLength(1)))
    );
    assert_eq!(digits(&s), CLASSIC);
    assert_eq!(s.load_picked(&c, Some(0)), Ok(()));
    assert_eq!(digits(&s), OTHER);
    assert_eq!(s.load_picked(&c, Some(2)), Ok(()));
    assert_eq!(digits(&s), CLASSIC);
    s.set_difficulty(Difficulty::Easy);
    assert_eq!(
        s.load_random(&c),
        Err(LoadError::Format(0, FormatError::WrongLength(5)))
    );
    assert_eq!(digits(&s), CLASSIC);
}

#[test]
fn lines_are_kept_by_difficulty() {
    let c = corpus(&["a"], &["b", "c"], &[], &["d"]);
    assert_eq!(c.lines(Difficulty::Easy), &vec!["a".to_string()]);
    assert_eq!(c.lines(Difficulty::Medium).len(), 2);
    assert!(c.lines(Difficulty::Hard).is_empty());
    assert_eq!(c.lines(Difficulty::VeryHard), &vec!["d".to_string()]);
}

#[test]
fn going_harder_loads_a_puzzle_of_the_next_tier() {
    let c = corpus(&[CLASSIC], &[OTHER], &[CLASSIC], &[]);
    let mut s = Sudoku::new();
    s.set_difficulty(Difficulty::Easy);
    assert_eq!(s.load_harder(&c), Ok(true));
    assert_eq!(s.difficulty(), Difficulty::Medium);
    assert_eq!(digits(&s), OTHER);
    assert_eq!(s.load_harder(&c), Ok(true));
    assert_eq!(s.difficulty(), Difficulty::Hard);
    assert_eq!(digits(&s), CLASSIC);
    assert_eq!(s.load_harder(&c), Err(LoadError::EmptyCorpus));
    assert_eq!(s.difficulty(), Difficulty::VeryHard);
    assert_eq!(digits(&s), CLASSIC);
    s.start();
    s.run_steps(9);
    let grid = digits(&s);
    assert_eq!(s.load_harder(&c), Ok(false));
    assert_eq!(s.difficulty(), Difficulty::VeryHard);
    assert_eq!(digits(&s), grid);
    assert!(s.is_running());
    assert_eq!(s.step_count(), 9);
}

#[test]
fn going_easier_loads_a_puzzle_of_the_tier_before() {
    let c = corpus(&["000"], &[OTHER], &[CLASSIC], &[]);
    let mut s = Sudoku::new();
    s.set_difficulty(Difficulty::VeryHard);
    assert_eq!(s.load_easier(&c), Ok(true));
    assert_eq!(s.difficulty(), Difficulty::Hard);
    assert_eq!(digits(&s), CLASSIC);
    assert_eq!(s.load_easier(&c), Ok(true));
    assert_eq!(s.difficulty(), Difficulty::Medium);
    assert_eq!(digits(&s), OTHER);
    assert_eq!(
        s.load_easier(&c),
        Err(LoadError::Format(0, FormatError::WrongLength(3)))
    );
    assert_eq!(s.difficulty(), Difficulty::Easy);
    assert_eq!(digits(&s), OTHER);
    assert_eq!(s.load_easier(&c), Ok(false));
    assert_eq!(s.difficulty(), Difficulty::Easy);
    assert_eq!(digits(&s), OTHER);
}
