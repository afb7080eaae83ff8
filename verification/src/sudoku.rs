//! The executable solver: the grid with its cursor, and the operations on it.

use vstd::prelude::*;
use crate::bits::{has_bit, lemma_all_digits, lemma_no_bit_in_zero, lemma_set_bit, ALL_DIGITS};
use crate::board::{
    can_place, cleared, complete, conflict_free, empty_grid, grid_wf, has_candidate,
    lemma_cleared,
    lemma_peer_is_scanned, lemma_place_keeps_conflict_free, lemma_scan_cell_is_peer,
    lookahead_ok, next_free_digit, peers, scan_cell, used,
};
use crate::difficulty::Difficulty;
use crate::model::SudokuView;
use crate::pacing::{scaled, Pacing, PacingView, RATE_UNIT};
use crate::tile::{Direction, SolverState, Tile};

verus! {

/// A Sudoku grid together with the state of the search that solves it.
#[derive(Clone, Copy, Debug)]
pub struct Sudoku {
    pub(crate) tiles: [Tile; 81],
    pub(crate) difficulty: Difficulty,
    pub(crate) active_indx: usize,
    pub(crate) state: SolverState,
    pub(crate) step_count: u64,
    pub(crate) direction: Direction,
    pub(crate) pacing: Pacing,
}

impl View for Sudoku {
    type V = SudokuView;

    open(crate) spec fn view(&self) -> SudokuView {
        SudokuView {
            tiles: self.tiles@,
            difficulty: self.difficulty,
            cursor: self.active_indx as int,
            state: self.state,
            steps: self.step_count as int,
            direction: self.direction,
            pacing: self.pacing@,
        }
    }
}

/// The digit that the walk from cell `i` meets at its position `u`.
pub open spec fn scan_digit(g: Seq<Tile>, i: int, u: int) -> int {
    g[scan_cell(i, u)].digit()
}

/// Digit `d` was met among the first `t` cells of the walk from cell `i`.
pub open spec fn met_in_scan(g: Seq<Tile>, i: int, t: int, d: int) -> bool {
    exists|u: int| 0 <= u < t && #[trigger] scan_digit(g, i, u) == d
}

/// A digit is used around a cell exactly when the full walk meets it.
proof fn lemma_scan_meets_used(g: Seq<Tile>, i: int, d: int)
    requires
        0 <= i < 81,
    ensures
        met_in_scan(g, i, 27, d) == used(g, i, d),
{
    if met_in_scan(g, i, 27, d) {
        let u = choose|u: int| 0 <= u < 27 && #[trigger] scan_digit(g, i, u) == d;
        lemma_scan_cell_is_peer(i, u);
        assert(peers(i, scan_cell(i, u)));
    }
    if used(g, i, d) {
        let j = choose|j: int| #[trigger] peers(i, j) && g[j].digit() == d;
        let u = lemma_peer_is_scanned(i, j);
        assert(scan_digit(g, i, u) == d);
    }
}

/// The cell at position `t` of the walk through the units of cell `indx`.
fn scan_index(indx: usize, t: usize) -> (cell: usize)
    requires
        indx < 81,
        t < 27,
    ensures
        cell == scan_cell(indx as int, t as int),
        cell < 81,
{
    proof {
        lemma_scan_cell_is_peer(indx as int, t as int);
    }
    if t < 9 {
        indx - indx % 9 + t
    } else if t < 18 {
        indx % 9 + (t - 9) * 9
    } else {
        (indx % 9) / 3 * 3 + (indx / 9) / 3 * 27 + (t - 18) % 3 + (t - 18) / 3 * 9
    }
}

/// An array of 81 empty tiles.
pub(crate) fn empty_tiles() -> (tiles: [Tile; 81])
    ensures
        tiles@ == empty_grid(),
{
    let tiles = [Tile::Empty;81];
    assert(tiles@.len() == 81);
    assert forall|i: int| 0 <= i < 81 implies tiles@[i] == Tile::Empty by {
        vstd::array::axiom_spec_array_fill_for_copy_type::<Tile, 81>(Tile::Empty);
    }
    assert(tiles@ =~= empty_grid());
    tiles
}

/// The 27 cells that the walk through the row, the column and the box of cell
/// `indx` visits, in the order of the walk. These are the cells that share a
/// unit with `indx`; those that share two units with it come twice.
pub fn squares(indx: usize) -> (cells: Vec<usize>)
    requires
        indx < 81,
    ensures
        cells@.len() == 27,
        forall|t: int| 0 <= t < 27 ==> cells@[t] == scan_cell(indx as int, t),
        forall|t: int| 0 <= t < 27 ==> peers(indx as int, #[trigger] cells@[t] as int),
        forall|j: int| peers(indx as int, j) ==> exists|t: int| 0 <= t < 27 && cells@[t] == j,
{
    let mut cells: Vec<usize> = Vec::new();
    let mut t: usize = 0;
    while t < 27
        invariant
            indx < 81,
            t <= 27,
            cells@.len() == t,
            forall|u: int| 0 <= u < t ==> cells@[u] == scan_cell(indx as int, u),
        decreases 27 - t,
    {
        cells.push(scan_index(indx, t));
        t += 1;
    }
    proof {
        assert forall|u: int| 0 <= u < 27 implies peers(indx as int, #[trigger] cells@[u] as int) by {
            lemma_scan_cell_is_peer(indx as int, u);
        }
        assert forall|j: int| peers(indx as int, j) implies exists|u: int|
            0 <= u < 27 && cells@[u] == j by {
            let u = lemma_peer_is_scanned(indx as int, j);
            assert(cells@[u] == j);
        }
    }
    cells
}

impl Sudoku {
    /// The state is well formed: every tile is empty or carries a digit from
    /// 1 to 9, the cursor is at most 81, and the pacing is in range.
    pub open spec fn wf(&self) -> bool {
        self@.wf()
    }

    /// An empty grid at medium difficulty, idle, at one move per tick.
    pub fn new() -> (s: Sudoku)
        ensures
            s.wf(),
            s@ == (SudokuView {
                tiles: empty_grid(),
                difficulty: Difficulty::Medium,
                cursor: 0,
                state: SolverState::Idle,
                steps: 0,
                direction: Direction::Forward,
                pacing: PacingView { rate: RATE_UNIT as int, substeps: 0 },
            }),
    {
        let s = Sudoku {
            tiles: empty_tiles(),
            difficulty: Difficulty::Medium,
            active_indx: 0,
            state: SolverState::Idle,
            step_count: 0,
            direction: Direction::Forward,
            pacing: Pacing::new(),
        };
        s
    }

    /// The tile in cell `indx`.
    pub fn get(&self, indx: usize) -> (tile: Tile)
        requires
            indx < 81,
        ensures
            tile == self@.tiles[indx as int],
    {
        self.tiles[indx]
    }

    /// The set of digits that stand in the row, the column and the box of
    /// cell `indx`, as a mask: bit `d` is set exactly for the digits `d` from
    /// 1 to 9 that are used there. Bit 0 and the bits above 9 are clear.
    pub fn avaliable_numbers(&self, indx: usize) -> (seen: u16)
        requires
            self.wf(),
            indx < 81,
        ensures
            forall|d: int| has_bit(seen, d) <==> (1 <= d <= 9 && used(self@.tiles, indx as int, d)),
            (seen == ALL_DIGITS) <==> !has_candidate(self@.tiles, indx as int),
    {
        let ghost g = self@.tiles;
        let ghost i = indx as int;
        let mut seen: u16 = 0;
        let mut t: usize = 0;
        proof {
            assert forall|d: int| has_bit(seen, d) <==> (1 <= d <= 9 && met_in_scan(g, i, 0, d)) by {
                lemma_no_bit_in_zero(d);
            }
        }
        while t < 27
            invariant
                self.wf(),
                indx < 81,
                g == self@.tiles,
                i == indx as int,
                t <= 27,
                forall|d: int|
                    has_bit(seen, d) <==> (1 <= d <= 9 && met_in_scan(g, i, t as int, d)),
            decreases 27 - t,
        {
            let cell = scan_index(indx, t);
            let tile = self.tiles[cell];
            let n = tile.value();
            let ghost before = seen;
            assert(tile.wf());
            assert(scan_digit(g, i, t as int) == n);
            if n != 0 {
                seen = seen | (1u16 << (n as u16));
            }
            proof {
                assert forall|d: int|
                    has_bit(seen, d) <==> (1 <= d <= 9 && met_in_scan(g, i, t + 1, d)) by {
                    if n != 0 {
                        lemma_set_bit(before, n as u16, d);
                    }
                    if met_in_scan(g, i, t + 1, d) {
                        let u = choose|u: int| 0 <= u < t + 1 && #[trigger] scan_digit(g, i, u) == d;
                        if u < t {
                            assert(met_in_scan(g, i, t as int, d));
                        }
                    }
                    if met_in_scan(g, i, t as int, d) {
                        let u = choose|u: int| 0 <= u < t && #[trigger] scan_digit(g, i, u) == d;
                        assert(0 <= u < t + 1 && scan_digit(g, i, u) == d);
                    }
                }
            }
            t += 1;
        }
        proof {
            assert forall|d: int| has_bit(seen, d) <==> (1 <= d <= 9 && used(g, i, d)) by {
                lemma_scan_meets_used(g, i, d);
            }
            lemma_all_digits(seen);
            if seen == ALL_DIGITS {
                assert forall|d: int| 1 <= d <= 9 implies used(g, i, d) by {
                    assert(has_bit(seen, d));
                }
            }
            if !has_candidate(g, i) {
                assert forall|d: int| 0 <= d < 16 implies has_bit(seen, d) == (1 <= d <= 9) by {
                    if 1 <= d <= 9 {
                        assert(used(g, i, d));
                    }
                }
            }
        }
        seen
    }

    /// Whether digit `n` is not yet used in the row, the column or the box of
    /// cell `indx`.
    pub fn is_available(&self, indx: usize, n: u8) -> (free: bool)
        requires
            self.wf(),
            indx < 81,
            1 <= n <= 9,
        ensures
            free == !used(self@.tiles, indx as int, n as int),
    {
        let available = self.avaliable_numbers(indx);
        let shift = n as u16;
        assert((available >> shift) & 1 == 0 || (available >> shift) & 1 == 1) by (bit_vector);
        assert(has_bit(available, n as int) == ((available >> shift) & 1 == 1));
        (available >> shift) & 1 == 0
    }

    /// The least digit above the one in cell `indx` (above 0 where the cell is
    /// empty) that is not used in the row, the column or the box of the cell;
    /// `None` when every digit up to 9 is used.
    pub fn next_available_number(&self, indx: usize) -> (next: Option<u8>)
        requires
            self.wf(),
            indx < 81,
        ensures
            match next {
                Some(d) => d == next_free_digit(
                    self@.tiles,
                    indx as int,
                    self@.tiles[indx as int].digit(),
                ) && 1 <= d <= 9,
                None => next_free_digit(self@.tiles, indx as int, self@.tiles[indx as int].digit())
                    == 10,
            },
    {
        let available = self.avaliable_numbers(indx);
        let current = self.tiles[indx].value();
        let ghost g = self@.tiles;
        assert(self@.tiles[indx as int].wf());
        let mut i: u8 = current + 1;
        while i <= 9
            invariant
                indx < 81,
                g == self@.tiles,
                g.len() == 81,
                current == g[indx as int].digit(),
                1 <= i <= 10,
                current < i,
                forall|d: int|
                    has_bit(available, d) <==> (1 <= d <= 9 && used(g, indx as int, d)),
                next_free_digit(g, indx as int, current as int) == next_free_digit(
                    g,
                    indx as int,
                    i - 1,
                ),
            decreases 10 - i,
        {
            let shift = i as u16;
            assert((available >> shift) & 1 == 0 || (available >> shift) & 1 == 1) by (bit_vector);
            assert(has_bit(available, i as int) == ((available >> shift) & 1 == 1));
            if (available >> shift) & 1 == 0 {
                return Some(i);
            }
            i += 1;
        }
        None
    }

    /// The lookahead after a move at cell `indx`: whether every empty cell
    /// in the row, the column and the box of `indx` still has a digit that
    /// can go into it.
    pub fn solution_possible(&self, indx: usize) -> (ok: bool)
        requires
            self.wf(),
            indx < 81,
        ensures
            ok == lookahead_ok(self@.tiles, indx as int),
    {
        let ghost g = self@.tiles;
        let ghost i = indx as int;
        let mut t: usize = 0;
        while t < 27
            invariant
                self.wf(),
                indx < 81,
                g == self@.tiles,
                i == indx as int,
                t <= 27,
                forall|u: int|
                    0 <= u < t && g[#[trigger] scan_cell(i, u)] is Empty ==> has_candidate(
                        g,
                        scan_cell(i, u),
                    ),
            decreases 27 - t,
        {
            let cell = scan_index(indx, t);
            if let Tile::Empty = self.tiles[cell] {
                if self.avaliable_numbers(cell) == ALL_DIGITS {
                    proof {
                        lemma_scan_cell_is_peer(i, t as int);
                        assert(peers(i, cell as int) && g[cell as int] is Empty && !has_candidate(
                            g,
                            cell as int,
                        ));
                    }
                    return false;
                }
            }
            t += 1;
        }
        proof {
            assert forall|j: int| #[trigger] peers(i, j) && g[j] is Empty implies has_candidate(
                g,
                j,
            ) by {
                let u = lemma_peer_is_scanned(i, j);
                assert(scan_cell(i, u) == j);
            }
        }
        true
    }

    /// Whether no cell is empty.
    pub fn is_complete(&self) -> (full: bool)
        ensures
            full == complete(self@.tiles),
    {
        let mut k: usize = 0;
        while k < 81
            invariant
                k <= 81,
                forall|j: int| 0 <= j < k ==> !(#[trigger] self@.tiles[j] is Empty),
            decreases 81 - k,
        {
            if let Tile::Empty = self.tiles[k] {
                return false;
            }
            k += 1;
        }
        true
    }
}

impl Sudoku {
    /// The difficulty tier that puzzles are drawn from.
    pub fn difficulty(&self) -> (d: Difficulty)
        ensures
            d == self@.difficulty,
    {
        self.difficulty
    }

    /// Chooses the difficulty tier for the next puzzle. The grid stays.
    pub fn set_difficulty(&mut self, difficulty: Difficulty)
        ensures
            final(self)@ == (SudokuView { difficulty, ..old(self)@ }),
    {
        self.difficulty = difficulty;
    }

    /// The cell the search stands on; 81 once it has walked off the grid.
    pub fn active_index(&self) -> (c: usize)
        ensures
            c == self@.cursor,
    {
        self.active_indx
    }

    /// Where the solver stands.
    pub fn state(&self) -> (s: SolverState)
        ensures
            s == self@.state,
    {
        self.state
    }

    /// The direction of the search.
    pub fn direction(&self) -> (d: Direction)
        ensures
            d == self@.direction,
    {
        self.direction
    }

    /// The number of moves made since the search started.
    pub fn step_count(&self) -> (n: u64)
        ensures
            n == self@.steps,
    {
        self.step_count
    }

    /// The pacing of the search.
    pub fn pacing(&self) -> (p: Pacing)
        ensures
            p@ == self@.pacing,
    {
        self.pacing
    }

    /// Whether the search is under way.
    pub fn is_running(&self) -> (running: bool)
        ensures
            running == (self@.state is Running),
    {
        match self.state {
            SolverState::Running => true,
            _ => false,
        }
    }

    /// Puts the cursor back on cell 0 facing forward, forgets the moves
    /// counted and makes the solver idle. The grid stays.
    pub fn reset_solver(&mut self)
        ensures
            final(self)@ == (SudokuView {
                cursor: 0,
                steps: 0,
                direction: Direction::Forward,
                state: SolverState::Idle,
                ..old(self)@
            }),
            old(self).wf() ==> final(self).wf(),
    {
        self.active_indx = 0;
        self.step_count = 0;
        self.direction = Direction::Forward;
        self.state = SolverState::Idle;
    }

    /// Empties every cell that holds a digit of the search. Clues and
    /// hand-entered digits stay.
    pub fn clear_variables(&mut self)
        ensures
            final(self)@ == (SudokuView { tiles: cleared(old(self)@.tiles), ..old(self)@ }),
            old(self).wf() ==> final(self).wf(),
            conflict_free(old(self)@.tiles) ==> conflict_free(final(self)@.tiles),
    {
        let ghost before = self@;
        let mut k: usize = 0;
        while k < 81
            invariant
                k <= 81,
                self@ == (SudokuView { tiles: self@.tiles, ..before }),
                self@.tiles.len() == 81,
                before.tiles.len() == 81,
                forall|j: int| 0 <= j < k ==> self@.tiles[j] == cleared(before.tiles)[j],
                forall|j: int| k <= j < 81 ==> self@.tiles[j] == before.tiles[j],
            decreases 81 - k,
        {
            if let Tile::SolverVariable(_) = self.tiles[k] {
                self.tiles[k] = Tile::Empty;
            }
            k += 1;
        }
        proof {
            assert(self@.tiles =~= cleared(before.tiles));
            lemma_cleared(before.tiles);
        }
    }

    /// Empties the whole grid, clues included, and resets the solver. Does
    /// nothing while the search is under way; the result says whether the
    /// grid was emptied.
    pub fn clear_all(&mut self) -> (done: bool)
        ensures
            done == !(old(self)@.state is Running),
            done ==> final(self)@ == (SudokuView {
                tiles: empty_grid(),
                cursor: 0,
                steps: 0,
                direction: Direction::Forward,
                state: SolverState::Idle,
                ..old(self)@
            }),
            !done ==> final(self)@ == old(self)@,
            old(self).wf() ==> final(self).wf(),
            conflict_free(final(self)@.tiles) || !done,
    {
        if self.is_running() {
            return false;
        }
        self.tiles = empty_tiles();
        self.reset_solver();
        true
    }

    /// Takes the digits of the search out of the grid and resets the solver.
    /// Does nothing while the search is under way; the result says whether
    /// the grid was cleared.
    pub fn clear_result(&mut self) -> (done: bool)
        ensures
            done == !(old(self)@.state is Running),
            done ==> final(self)@ == old(self)@.rewound(SolverState::Idle),
            !done ==> final(self)@ == old(self)@,
            old(self).wf() ==> final(self).wf(),
            conflict_free(old(self)@.tiles) ==> conflict_free(final(self)@.tiles),
    {
        if self.is_running() {
            return false;
        }
        self.clear_variables();
        self.reset_solver();
        true
    }

    /// Starts a fresh search: the digits of an earlier search are taken out,
    /// the cursor goes to cell 0 facing forward, and the solver runs.
    pub fn start(&mut self)
        ensures
            final(self)@ == old(self)@.rewound(SolverState::Running),
            old(self).wf() ==> final(self).wf(),
            conflict_free(old(self)@.tiles) ==> conflict_free(final(self)@.tiles),
    {
        self.clear_variables();
        self.reset_solver();
        self.state = SolverState::Running;
    }

    /// Stops the search and clears its result: the digits of the search are
    /// taken out, the cursor goes to cell 0 facing forward, and the solver is
    /// idle.
    pub fn stop(&mut self)
        ensures
            final(self)@ == old(self)@.rewound(SolverState::Idle),
            old(self).wf() ==> final(self).wf(),
            conflict_free(old(self)@.tiles) ==> conflict_free(final(self)@.tiles),
    {
        self.clear_variables();
        self.reset_solver();
    }

    /// Starts the search when the solver is idle and stops it in every other
    /// state.
    pub fn toggle(&mut self)
        ensures
            final(self)@ == old(self)@.toggled(),
            old(self).wf() ==> final(self).wf(),
            conflict_free(old(self)@.tiles) ==> conflict_free(final(self)@.tiles),
    {
        match self.state {
            SolverState::Idle => self.start(),
            _ => self.stop(),
        }
    }

    /// Replaces the grid by `tiles` and resets the solver: the cursor goes to
    /// cell 0 facing forward, nothing is counted, the solver is idle. The
    /// difficulty and the rate stay. A grid with a tile whose digit is not
    /// from 1 to 9 is refused and changes nothing; the result says whether
    /// the grid was taken.
    pub fn load(&mut self, tiles: [Tile; 81]) -> (taken: bool)
        requires
            old(self).wf(),
        ensures
            final(self).wf(),
            taken == grid_wf(tiles@),
            taken ==> final(self)@ == old(self)@.loaded(tiles@),
            !taken ==> final(self)@ == old(self)@,
    {
        let ghost before = self@;
        let mut k: usize = 0;
        while k < 81
            invariant
                k <= 81,
                self.wf(),
                self@ == before,
                forall|j: int| 0 <= j < k ==> (#[trigger] tiles@[j]).wf(),
            decreases 81 - k,
        {
            if !tiles[k].is_well_formed() {
                return false;
            }
            k += 1;
        }
        self.tiles = tiles;
        self.active_indx = 0;
        self.step_count = 0;
        self.direction = Direction::Forward;
        self.state = SolverState::Idle;
        self.pacing.restart();
        true
    }

    /// Writes `tile` into cell `indx` if that is allowed, and says whether it
    /// was. A clue is never overwritten; an empty tile is always accepted
    /// elsewhere; a digit from 1 to 9 is accepted only where it is not yet
    /// used in the row, the column or the box of the cell. A refused tile
    /// leaves the grid as it was.
    pub fn try_insert(&mut self, indx: usize, tile: Tile) -> (accepted: bool)
        requires
            old(self).wf(),
            indx < 81,
        ensures
            final(self).wf(),
            accepted == can_place(old(self)@.tiles, indx as int, tile),
            accepted ==> final(self)@ == (SudokuView {
                tiles: old(self)@.tiles.update(indx as int, tile),
                ..old(self)@
            }),
            !accepted ==> final(self)@ == old(self)@,
            conflict_free(old(self)@.tiles) ==> conflict_free(final(self)@.tiles),
    {
        if let Tile::Const(_) = self.tiles[indx] {
            return false;
        }
        let accepted = match tile {
            Tile::Empty => true,
            Tile::SolverVariable(n) | Tile::Const(n) | Tile::PlayerVariable(n) => 1 <= n && n <= 9
                && self.is_available(indx, n),
        };
        if accepted {
            proof {
                if conflict_free(self@.tiles) {
                    lemma_place_keeps_conflict_free(self@.tiles, indx as int, tile);
                }
            }
            self.tiles[indx] = tile;
        }
        accepted
    }

    /// An edit by hand: outside a running search, the result of the last
    /// search is cleared, the solver is reset, and `tile` is written into the
    /// selected cell if `try_insert` allows it. The result says whether the
    /// tile was written. Nothing happens while the search is under way.
    pub fn try_write_tile(&mut self, selected: Option<usize>, tile: Tile) -> (written: bool)
        requires
            old(self).wf(),
            selected matches Some(indx) ==> indx < 81,
        ensures
            final(self).wf(),
            old(self)@.state is Running ==> !written && final(self)@ == old(self)@,
            !(old(self)@.state is Running) ==> {
                let cleared = old(self)@.rewound(SolverState::Idle);
                &&& written == (selected matches Some(indx) && can_place(
                    cleared.tiles,
                    indx as int,
                    tile,
                ))
                &&& written ==> final(self)@ == (SudokuView {
                    tiles: cleared.tiles.update(selected->0 as int, tile),
                    ..cleared
                })
                &&& !written ==> final(self)@ == cleared
            },
            conflict_free(old(self)@.tiles) ==> conflict_free(final(self)@.tiles),
    {
        if self.is_running() {
            return false;
        }
        self.clear_variables();
        self.reset_solver();
        match selected {
            Some(indx) => self.try_insert(indx, tile),
            None => false,
        }
    }

    /// Multiplies the rate of the search by `multiplier` millionths; the rate
    /// stays within its range.
    pub fn change_steps_per_frame(&mut self, multiplier: u64)
        requires
            old(self).wf(),
        ensures
            final(self).wf(),
            final(self)@ == (SudokuView {
                pacing: PacingView {
                    rate: scaled(old(self)@.pacing.rate, multiplier as int),
                    ..old(self)@.pacing
                },
                ..old(self)@
            }),
    {
        self.pacing.scale(multiplier);
    }
}

impl Default for Sudoku {
    fn default() -> (s: Sudoku)
        ensures
            s.wf(),
            s@.state is Idle,
            s@.cursor == 0,
            s@.steps == 0,
            s@.direction is Forward,
            s@.difficulty is Medium,
            s@.pacing == (PacingView { rate: RATE_UNIT as int, substeps: 0 }),
            s@.tiles == empty_grid(),
    {
        Sudoku::new()
    }
}

} // verus!
