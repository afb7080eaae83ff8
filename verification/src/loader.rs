//! Loading a puzzle: from one line of 81 digits, or at random from a corpus
//! of such lines.

use rand::seq::IteratorRandom;
use vstd::prelude::*;
use vstd::string::StrSliceExecFns;
use crate::board::grid_wf;
use crate::difficulty::Difficulty;
use crate::model::SudokuView;
use crate::sudoku::{empty_tiles, Sudoku};
use crate::tile::{Direction, SolverState, Tile};

verus! {

/// Why a line is not a puzzle.
#[derive(PartialEq, Eq, Clone, Copy, Debug, Structural)]
pub enum FormatError {
    /// The line does not have 81 characters; the field holds their number.
    WrongLength(usize),
    /// The line has 81 characters, and the one at this position is the first
    /// that is not a digit.
    InvalidCharacter(usize),
}

/// Why no puzzle was loaded from a corpus.
#[derive(PartialEq, Eq, Clone, Copy, Debug, Structural)]
pub enum LoadError {
    /// The corpus has no line for the difficulty.
    EmptyCorpus,
    /// The line at this position of the corpus was picked, and it is not a
    /// puzzle.
    Format(usize, FormatError),
}

/// The puzzles to draw from, one line each, by difficulty.
pub struct Corpus {
    pub easy: Vec<String>,
    pub medium: Vec<String>,
    pub hard: Vec<String>,
    pub very_hard: Vec<String>,
}

/// The tile that a character of a puzzle line stands for: `0` an empty cell,
/// `1` to `9` a clue; no other character stands for a tile.
pub open spec fn tile_of_char(c: char) -> Option<Tile> {
    let code = c as u32;
    if code == 48 {
        Some(Tile::Empty)
    } else if 49 <= code <= 57 {
        Some(Tile::Const((code - 48) as u8))
    } else {
        None
    }
}

/// The grid that a line of 81 digits stands for.
pub open spec fn grid_of_line(line: Seq<char>) -> Seq<Tile> {
    Seq::new(81, |i: int| tile_of_char(line[i])->0)
}

/// Position `p` holds the first character of the line that is not a digit.
pub open spec fn first_invalid(line: Seq<char>, p: int) -> bool {
    &&& 0 <= p < line.len()
    &&& tile_of_char(line[p]) is None
    &&& forall|i: int| 0 <= i < p ==> (#[trigger] tile_of_char(line[i])) is Some
}

/// What loading a line gives: the grid, if the line has 81 characters and all
/// are digits; else the length, if it is not 81; else the position of the
/// first character that is not a digit.
pub open spec fn parses_to(line: Seq<char>, outcome: Result<Seq<Tile>, FormatError>) -> bool {
    match outcome {
        Ok(tiles) => {
            &&& line.len() == 81
            &&& forall|i: int| 0 <= i < 81 ==> (#[trigger] tile_of_char(line[i])) is Some
            &&& tiles == grid_of_line(line)
        },
        Err(FormatError::WrongLength(n)) => n == line.len() && line.len() != 81,
        Err(FormatError::InvalidCharacter(p)) => line.len() == 81 && first_invalid(line, p as int),
    }
}

impl Corpus {
    /// The lines for a difficulty.
    pub open spec fn lines_spec(&self, difficulty: Difficulty) -> Seq<String> {
        match difficulty {
            Difficulty::Easy => self.easy@,
            Difficulty::Medium => self.medium@,
            Difficulty::Hard => self.hard@,
            Difficulty::VeryHard => self.very_hard@,
        }
    }

    /// The lines for a difficulty.
    pub fn lines(&self, difficulty: Difficulty) -> (list: &Vec<String>)
        ensures
            list@ == self.lines_spec(difficulty),
    {
        match difficulty {
            Difficulty::Easy => &self.easy,
            Difficulty::Medium => &self.medium,
            Difficulty::Hard => &self.hard,
            Difficulty::VeryHard => &self.very_hard,
        }
    }
}

/// The tile that a character of a puzzle line stands for.
pub fn tile_from_char(c: char) -> (tile: Option<Tile>)
    ensures
        tile == tile_of_char(c),
        tile matches Some(t) ==> t.wf(),
{
    let code = c as u32;
    if code == 48 {
        Some(Tile::Empty)
    } else if 49 <= code && code <= 57 {
        Some(Tile::Const((code - 48) as u8))
    } else {
        None
    }
}

/// Picks a position below `len` at random with
/// `rand::seq::IteratorRandom::choose` on the range `0..len`, drawing from
/// `rand::thread_rng()`. Not proved, taken from the documentation of
/// `choose`: the result is `None` exactly when the range is empty, and
/// otherwise a member of the range. Which member is left open.
#[verifier::external_body]
fn choose_index(len: usize) -> (picked: Option<usize>)
    ensures
        picked is None <==> len == 0,
        picked matches Some(k) ==> k < len,
{
    (0..len).choose(&mut rand::thread_rng())
}

impl Sudoku {
    /// A solver for the puzzle that `line` holds: 81 characters, `0` for an
    /// empty cell and `1` to `9` for a clue. The new solver is idle with the
    /// cursor on cell 0; it keeps the difficulty and the rate of `self`.
    pub fn from_line(&self, line: &str) -> (loaded: Result<Sudoku, FormatError>)
        requires
            self.wf(),
        ensures
            match loaded {
                Ok(s) => s.wf() && parses_to(line@, Ok(s@.tiles)) && s@ == self@.loaded(s@.tiles),
                Err(e) => parses_to(line@, Err(e)),
            },
    {
        let count = line.unicode_len();
        if count != 81 {
            return Err(FormatError::WrongLength(count));
        }
        let mut tiles = empty_tiles();
        let mut k: usize = 0;
        while k < 81
            invariant
                k <= 81,
                self.wf(),
                line@.len() == 81,
                forall|i: int| 0 <= i < k ==> (#[trigger] tile_of_char(line@[i])) is Some,
                forall|i: int| 0 <= i < k ==> tile_of_char(line@[i]) == Some(#[trigger] tiles@[i]),
                forall|i: int| 0 <= i < k ==> (#[trigger] tiles@[i]).wf(),
                forall|i: int| k <= i < 81 ==> (#[trigger] tiles@[i]) is Empty,
            decreases 81 - k,
        {
            match tile_from_char(line.get_char(k)) {
                Some(tile) => {
                    tiles[k] = tile;
                },
                None => {
                    return Err(FormatError::InvalidCharacter(k));
                },
            }
            k += 1;
        }
        let mut pacing = self.pacing;
        pacing.restart();
        let loaded = Sudoku {
            tiles,
            difficulty: self.difficulty,
            active_indx: 0,
            state: SolverState::Idle,
            step_count: 0,
            direction: Direction::Forward,
            pacing,
        };
        proof {
            assert(loaded@.tiles =~= grid_of_line(line@));
            assert(grid_wf(loaded@.tiles));
        }
        Ok(loaded)
    }

    /// Replaces the grid by the puzzle that `line` holds and resets the
    /// solver. A line that is not a puzzle is reported and changes nothing.
    pub fn load_line(&mut self, line: &str) -> (outcome: Result<(), FormatError>)
        requires
            old(self).wf(),
        ensures
            final(self).wf(),
            match outcome {
                Ok(()) => parses_to(line@, Ok(final(self)@.tiles))
                    && final(self)@ == old(self)@.loaded(final(self)@.tiles),
                Err(e) => parses_to(line@, Err(e)) && final(self)@ == old(self)@,
            },
    {
        match self.from_line(line) {
            Ok(loaded) => {
                *self = loaded;
                Ok(())
            },
            Err(e) => Err(e),
        }
    }

    /// Loads the line of `corpus` that `picked` names, among the lines for
    /// the difficulty of `self`. Without a pick nothing is loaded.
    pub fn load_picked(&mut self, corpus: &Corpus, picked: Option<usize>) -> (outcome: Result<
        (),
        LoadError,
    >)
        requires
            old(self).wf(),
            picked matches Some(k) ==> k < corpus.lines_spec(old(self)@.difficulty).len(),
        ensures
            final(self).wf(),
            loads(old(self)@, corpus.lines_spec(old(self)@.difficulty), picked, outcome, final(self)@),
    {
        let lines = corpus.lines(self.difficulty);
        match picked {
            None => Err(LoadError::EmptyCorpus),
            Some(k) => match self.load_line(lines[k].as_str()) {
                Ok(()) => Ok(()),
                Err(e) => Err(LoadError::Format(k, e)),
            },
        }
    }

    /// Loads a puzzle picked at random among the lines of `corpus` for the
    /// difficulty of `self`. An empty list is reported, and so is a picked
    /// line that is not a puzzle; either leaves the solver as it was.
    pub fn load_random(&mut self, corpus: &Corpus) -> (outcome: Result<(), LoadError>)
        requires
            old(self).wf(),
        ensures
            final(self).wf(),
            outcome == Err::<(), LoadError>(LoadError::EmptyCorpus) <==> corpus.lines_spec(
                old(self)@.difficulty,
            ).len() == 0,
            exists|picked: Option<usize>|
                {
                    &&& picked is None <==> corpus.lines_spec(old(self)@.difficulty).len() == 0
                    &&& picked matches Some(k) ==> k < corpus.lines_spec(
                        old(self)@.difficulty,
                    ).len()
                    &&& #[trigger] loads(
                        old(self)@,
                        corpus.lines_spec(old(self)@.difficulty),
                        picked,
                        outcome,
                        final(self)@,
                    )
                },
    {
        let picked = choose_index(corpus.lines(self.difficulty).len());
        self.load_picked(corpus, picked)
    }

    /// Moves the difficulty one tier up and loads a puzzle of the new tier at
    /// random. At the top tier nothing happens; the result says whether the
    /// tier changed. The new tier stays where the load fails.
    pub fn load_harder(&mut self, corpus: &Corpus) -> (outcome: Result<bool, LoadError>)
        requires
            old(self).wf(),
        ensures
            final(self).wf(),
            old(self)@.difficulty is VeryHard ==> outcome == Ok::<bool, LoadError>(false)
                && final(self)@ == old(self)@,
            !(old(self)@.difficulty is VeryHard) ==> loads_tier(
                old(self)@,
                old(self)@.difficulty.harder(),
                corpus,
                outcome,
                final(self)@,
            ),
    {
        match self.difficulty {
            Difficulty::VeryHard => Ok(false),
            tier => self.load_tier(tier.harder(), corpus),
        }
    }

    /// Moves the difficulty one tier down and loads a puzzle of the new tier
    /// at random. At the bottom tier nothing happens; the result says whether
    /// the tier changed. The new tier stays where the load fails.
    pub fn load_easier(&mut self, corpus: &Corpus) -> (outcome: Result<bool, LoadError>)
        requires
            old(self).wf(),
        ensures
            final(self).wf(),
            old(self)@.difficulty is Easy ==> outcome == Ok::<bool, LoadError>(false)
                && final(self)@ == old(self)@,
            !(old(self)@.difficulty is Easy) ==> loads_tier(
                old(self)@,
                old(self)@.difficulty.easier(),
                corpus,
                outcome,
                final(self)@,
            ),
    {
        match self.difficulty {
            Difficulty::Easy => Ok(false),
            tier => self.load_tier(tier.easier(), corpus),
        }
    }

    /// Sets the difficulty to `tier` and loads a puzzle of that tier at
    /// random.
    fn load_tier(&mut self, tier: Difficulty, corpus: &Corpus) -> (outcome: Result<bool, LoadError>)
        requires
            old(self).wf(),
        ensures
            final(self).wf(),
            loads_tier(old(self)@, tier, corpus, outcome, final(self)@),
    {
        self.difficulty = tier;
        let ghost changed = self@;
        let loaded = self.load_random(corpus);
        let outcome = match loaded {
            Ok(()) => Ok(true),
            Err(e) => Err(e),
        };
        proof {
            let lines = corpus.lines_spec(tier);
            let picked = choose|picked: Option<usize>|
                {
                    &&& picked is None <==> lines.len() == 0
                    &&& picked matches Some(k) ==> k < lines.len()
                    &&& #[trigger] loads(changed, lines, picked, loaded, self@)
                };
            assert(load_result(outcome) is Ok <==> loaded is Ok);
            assert(loaded matches Err(e) ==> load_result(outcome) == Err::<(), LoadError>(e));
            assert(loads(changed, lines, picked, load_result(outcome), self@));
        }
        outcome
    }
}

/// The result of a load without the flag that says whether the tier changed.
pub open spec fn load_result(outcome: Result<bool, LoadError>) -> Result<(), LoadError> {
    match outcome {
        Ok(_) => Ok(()),
        Err(e) => Err(e),
    }
}

/// Changing to `tier` and loading from `corpus` turns the state `before` into
/// `after` with the result `outcome`: the difficulty is `tier`; an empty list
/// for that tier is reported; else some line of the list was picked and
/// loaded, or reported if it is not a puzzle.
pub open spec fn loads_tier(
    before: SudokuView,
    tier: Difficulty,
    corpus: &Corpus,
    outcome: Result<bool, LoadError>,
    after: SudokuView,
) -> bool {
    let lines = corpus.lines_spec(tier);
    let changed = SudokuView { difficulty: tier, ..before };
    &&& !(outcome matches Ok(false))
    &&& outcome == Err::<bool, LoadError>(LoadError::EmptyCorpus) <==> lines.len() == 0
    &&& exists|picked: Option<usize>|
        {
            &&& picked is None <==> lines.len() == 0
            &&& picked matches Some(k) ==> k < lines.len()
            &&& #[trigger] loads(changed, lines, picked, load_result(outcome), after)
        }
}

/// Loading from `lines` with the pick `picked` turns the state `before` into
/// `after` with the result `outcome`: without a pick the corpus is reported
/// empty; a picked line that is a puzzle is loaded; one that is not is
/// reported with its position. Nothing changes unless a puzzle is loaded.
pub open spec fn loads(
    before: SudokuView,
    lines: Seq<String>,
    picked: Option<usize>,
    outcome: Result<(), LoadError>,
    after: SudokuView,
) -> bool {
    match picked {
        None => outcome == Err::<(), LoadError>(LoadError::EmptyCorpus) && after == before,
        Some(k) => match outcome {
            Ok(()) => parses_to(lines[k as int]@, Ok(after.tiles)) && after == before.loaded(
                after.tiles,
            ),
            Err(LoadError::Format(at, e)) => at == k && parses_to(lines[k as int]@, Err(e)) && after
                == before,
            Err(LoadError::EmptyCorpus) => false,
        },
    }
}

} // verus!
