//! The board: its cells, moves on it, and the classification of a position.
use vstd::prelude::*;

use crate::game_state::GameState;

verus! {

/// Side length of the board.
pub const DIMENSION: usize = 3;

/// Number of cells on the board.
pub const CELL_COUNT: usize = 9;

/// The value of a cell that holds no mark.
pub const EMPTY_CELL: char = ' ';

/// Number of lines that win: three rows, three columns, two diagonals.
pub const LINE_COUNT: usize = 8;

/// A position: the cells row by row, and the marks of the two players.
#[derive(Clone, Copy)]
pub struct Game {
    cells: [char; 9],
    player1_symbol: char,
    player2_symbol: char,
}

/// Index into the cells of the cell at `row`, `col`.
pub open spec fn cell_index(row: int, col: int) -> int {
    row * 3 + col
}

/// Index of the `t`-th cell of line `k`, in scan order: rows first, then
/// columns, then the diagonal from the top left, then the one from the top
/// right.
pub open spec fn line_cell(k: int, t: int) -> int {
    if k < 3 {
        cell_index(k, t)
    } else if k < 6 {
        cell_index(t, k - 3)
    } else if k == 6 {
        cell_index(t, t)
    } else {
        cell_index(t, 2 - t)
    }
}

/// Line `k` holds one mark, in all three of its cells.
pub open spec fn line_uniform(cells: Seq<char>, k: int) -> bool {
    &&& cells[line_cell(k, 0)] != EMPTY_CELL
    &&& cells[line_cell(k, 1)] == cells[line_cell(k, 0)]
    &&& cells[line_cell(k, 2)] == cells[line_cell(k, 0)]
}

/// The state decided by the first line in `[k, hi)`, scan order, that holds
/// one mark in all three cells: the win of the player whose mark it is, or no
/// win where the mark is neither player's. `InProgress` where no such line is.
pub open spec fn scan_lines(cells: Seq<char>, p1: char, p2: char, k: int, hi: int) -> GameState
    decreases hi - k,
{
    if k >= hi {
        GameState::InProgress
    } else if line_uniform(cells, k) {
        GameState::spec_from_winner(cells[line_cell(k, 0)], p1, p2)
    } else {
        scan_lines(cells, p1, p2, k + 1, hi)
    }
}

/// Every cell holds a mark.
pub open spec fn board_full(cells: Seq<char>) -> bool {
    forall|i: int| 0 <= i < 9 ==> cells[i] != EMPTY_CELL
}

/// The classification of a position: the rows decide where their scan finds
/// a win, else the columns, else the diagonals; with no win a full board is a
/// draw and any other a game in progress.
pub open spec fn classify(cells: Seq<char>, p1: char, p2: char) -> GameState {
    let rows = scan_lines(cells, p1, p2, 0, 3);
    let cols = scan_lines(cells, p1, p2, 3, 6);
    let diags = scan_lines(cells, p1, p2, 6, 8);
    if rows.spec_is_win() {
        rows
    } else if cols.spec_is_win() {
        cols
    } else if diags.spec_is_win() {
        diags
    } else if board_full(cells) {
        GameState::Draw
    } else {
        GameState::InProgress
    }
}

impl Game {
    /// The cells, row by row.
    pub closed spec fn cells(&self) -> Seq<char> {
        self.cells@
    }

    pub closed spec fn player1(&self) -> char {
        self.player1_symbol
    }

    pub closed spec fn player2(&self) -> char {
        self.player2_symbol
    }

    /// The mark at `row`, `col`.
    pub open spec fn cell(&self, row: int, col: int) -> char {
        self.cells()[cell_index(row, col)]
    }

    /// The classification of this position.
    pub open spec fn state(&self) -> GameState {
        classify(self.cells(), self.player1(), self.player2())
    }

    /// The board has its nine cells.
    pub proof fn lemma_cells_len(&self)
        ensures
            self.cells().len() == 9,
    {
        assert(self.cells@.len() == 9);
    }

    /// Side length of the board.
    pub fn dimensions(&self) -> (r: usize)
        ensures
            r == DIMENSION,
    {
        DIMENSION
    }

    /// The mark at `row`, `col` (the empty cell where none is).
    pub fn get_cell_value(&self, row: usize, col: usize) -> (r: char)
        requires
            row < DIMENSION,
            col < DIMENSION,
        ensures
            r == self.cell(row as int, col as int),
    {
        self.cells[row * DIMENSION + col]
    }

    /// The classification of the position: rows, then columns, then
    /// diagonals decide where the first line of the group that one mark fills
    /// is a win; else a full board is a draw and any other a game in progress.
    pub fn get_game_state(&self) -> (r: GameState)
        ensures
            r == self.state(),
    {
        let row_state = self.get_row_game_state();
        if row_state.is_win() {
            return row_state;
        }
        let col_state = self.get_col_game_state();
        if col_state.is_win() {
            return col_state;
        }
        let diag_state = self.get_game_diagonal_state();
        if diag_state.is_win() {
            return diag_state;
        }
        if self.is_board_full() {
            return GameState::Draw;
        }
        GameState::InProgress
    }

    /// Whether a mark may be placed at `row`, `col`: the cell is empty.
    pub fn is_valid_move(&self, row: usize, col: usize) -> (r: bool)
        requires
            row < DIMENSION,
            col < DIMENSION,
        ensures
            r == (self.cell(row as int, col as int) == EMPTY_CELL),
    {
        self.cells[row * DIMENSION + col] == EMPTY_CELL
    }

    /// An empty board for two players with the given marks.
    pub fn new(player1_symbol: char, player2_symbol: char) -> (r: Game)
        ensures
            r.cells().len() == 9,
            r.player1() == player1_symbol,
            r.player2() == player2_symbol,
            forall|i: int| 0 <= i < 9 ==> #[trigger] r.cells()[i] == EMPTY_CELL,
    {
        Game { player1_symbol, player2_symbol, cells: [EMPTY_CELL; 9] }
    }

    /// Places `value` at `row`, `col`, whatever the cell held.
    pub fn set_cell_value(&mut self, row: usize, col: usize, value: char)
        requires
            row < DIMENSION,
            col < DIMENSION,
        ensures
            final(self).cells() == old(self).cells().update(cell_index(row as int, col as int), value),
            final(self).player1() == old(self).player1(),
            final(self).player2() == old(self).player2(),
    {
        self.cells[row * DIMENSION + col] = value;
    }

    /// The mark that fills line `k`, where one mark fills it.
    fn line_mark(&self, k: usize) -> (r: Option<char>)
        requires
            k < LINE_COUNT,
        ensures
            r == if line_uniform(self.cells(), k as int) {
                Some(self.cells()[line_cell(k as int, 0)])
            } else {
                None::<char>
            },
    {
        let (a, b, c): (usize, usize, usize) = if k < 3 {
            (k * 3, k * 3 + 1, k * 3 + 2)
        } else if k < 6 {
            (k - 3, k, k + 3)
        } else if k == 6 {
            (0, 4, 8)
        } else {
            (2, 4, 6)
        };
        let winning_symbol = self.cells[a];
        if winning_symbol != EMPTY_CELL && self.cells[b] == winning_symbol && self.cells[c] == winning_symbol {
            Some(winning_symbol)
        } else {
            None
        }
    }

    /// The state decided by the first line in `[lo, hi)` that one mark fills.
    fn scan_game_state(&self, lo: usize, hi: usize) -> (r: GameState)
        requires
            lo <= hi <= LINE_COUNT,
        ensures
            r == scan_lines(self.cells(), self.player1(), self.player2(), lo as int, hi as int),
    {
        let mut k: usize = lo;
        while k < hi
            invariant
                lo <= k <= hi <= LINE_COUNT,
                scan_lines(self.cells(), self.player1(), self.player2(), lo as int, hi as int)
                    == scan_lines(self.cells(), self.player1(), self.player2(), k as int, hi as int),
            decreases hi - k,
        {
            if let Some(winning_symbol) = self.line_mark(k) {
                return GameState::from_winner(winning_symbol, self.player1_symbol, self.player2_symbol);
            }
            k += 1;
        }
        GameState::InProgress
    }

    /// The state decided by the first row that one mark fills.
    fn get_row_game_state(&self) -> (r: GameState)
        ensures
            r == scan_lines(self.cells(), self.player1(), self.player2(), 0, 3),
    {
        self.scan_game_state(0, 3)
    }

    /// The state decided by the first column that one mark fills.
    fn get_col_game_state(&self) -> (r: GameState)
        ensures
            r == scan_lines(self.cells(), self.player1(), self.player2(), 3, 6),
    {
        self.scan_game_state(3, 6)
    }

    /// The state decided by the first diagonal that one mark fills: the one
    /// from the top left, then the one from the top right.
    fn get_game_diagonal_state(&self) -> (r: GameState)
        ensures
            r == scan_lines(self.cells(), self.player1(), self.player2(), 6, 8),
    {
        self.scan_game_state(6, 8)
    }

    /// Whether every cell holds a mark.
    fn is_board_full(&self) -> (r: bool)
        ensures
            r == board_full(self.cells()),
    {
        let mut i: usize = 0;
        while i < CELL_COUNT
            invariant
                i <= CELL_COUNT,
                forall|j: int| 0 <= j < i ==> self.cells@[j] != EMPTY_CELL,
            decreases CELL_COUNT - i,
        {
            if self.cells[i] == EMPTY_CELL {
                return false;
            }
            i += 1;
        }
        true
    }
}

} // verus!
