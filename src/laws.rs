//! Properties of the classification and of the search, stated over the
//! models that the functions' contracts use.
use vstd::prelude::*;

use crate::ai::{
    better, child_value, empties, fold_moves, is_best_move_result, lemma_legal_moves_nonempty, mark_to_move, is_first_best_move, lemma_child_bounded, lemma_empties_update, lemma_fold_covers,
    lemma_minimax_bounded, lemma_moves_below, legal_moves, minimax, moves_below, CellLocation,
};
use crate::game::{
    board_full, cell_index, classify, line_cell, line_uniform, scan_lines, Game, EMPTY_CELL,
    LINE_COUNT,
};
use crate::game_state::GameState;

verus! {

/// Placing `mark` on cell `idx` completes a line that wins.
pub open spec fn completes_line(game: Game, mark: char, idx: int) -> bool {
    classify(game.cells().update(idx, mark), game.player1(), game.player2()).spec_is_win()
}

/// After `max_mark` is placed on cell `idx`, the side placing `min_mark` has a
/// move that wins at once.
pub open spec fn opponent_wins_next(game: Game, max_mark: char, min_mark: char, idx: int) -> bool {
    let after = game.cells().update(idx, max_mark);
    exists|j: int|
        0 <= j < 9 && after[j] == EMPTY_CELL && #[trigger] classify(
            after.update(j, min_mark),
            game.player1(),
            game.player2(),
        ).spec_is_win()
}

/// Placing `max_mark` on cell `idx` leaves the opponent no win on the next
/// move: it wins at once, or blocks every line the opponent could complete.
pub open spec fn blocks(game: Game, max_mark: char, min_mark: char, idx: int) -> bool {
    completes_line(game, max_mark, idx) || !opponent_wins_next(game, max_mark, min_mark, idx)
}

/// Line `k` is filled with the mark of one of the players.
pub open spec fn line_wins(cells: Seq<char>, p1: char, p2: char, k: int) -> bool {
    line_uniform(cells, k) && GameState::spec_from_winner(cells[line_cell(k, 0)], p1, p2).spec_is_win()
}

/// The first line of the group of line `k` (rows, columns or diagonals).
pub open spec fn group_start(k: int) -> int {
    if k < 3 {
        0
    } else if k < 6 {
        3
    } else {
        6
    }
}

/// Of the lines in `[j, k)`, the first one that one mark fills, if any, holds
/// the mark of line `k`.
pub open spec fn first_filled_matches(cells: Seq<char>, j: int, k: int) -> bool {
    forall|i: int|
        j <= i < k && #[trigger] line_uniform(cells, i) && (forall|m: int| j <= m < i ==> !line_uniform(cells, m))
            ==> cells[line_cell(i, 0)] == cells[line_cell(k, 0)]
}

proof fn lemma_scan_reaches(cells: Seq<char>, p1: char, p2: char, j: int, k: int, hi: int)
    requires
        0 <= j <= k < hi <= LINE_COUNT,
        line_uniform(cells, k),
        first_filled_matches(cells, j, k),
    ensures
        scan_lines(cells, p1, p2, j, hi) == GameState::spec_from_winner(cells[line_cell(k, 0)], p1, p2),
    decreases k - j,
{
    if j < k {
        if line_uniform(cells, j) {
            assert(cells[line_cell(j, 0)] == cells[line_cell(k, 0)]);
        } else {
            assert forall|i: int|
                j + 1 <= i < k && #[trigger] line_uniform(cells, i) && (forall|m: int|
                    j + 1 <= m < i ==> !line_uniform(cells, m)) implies cells[line_cell(i, 0)] == cells[line_cell(
                k,
                0,
            )] by {
                assert forall|m: int| j <= m < i implies !line_uniform(cells, m) by {
                    if m > j {
                        assert(j + 1 <= m < i);
                    }
                }
            }
            lemma_scan_reaches(cells, p1, p2, j + 1, k, hi);
        }
    }
}

proof fn lemma_scan_no_win(cells: Seq<char>, p1: char, p2: char, j: int, hi: int)
    requires
        0 <= j <= hi <= LINE_COUNT,
        forall|i: int| j <= i < hi ==> !#[trigger] line_wins(cells, p1, p2, i),
    ensures
        !scan_lines(cells, p1, p2, j, hi).spec_is_win(),
    decreases hi - j,
{
    if j < hi {
        assert(!line_wins(cells, p1, p2, j));
        lemma_scan_no_win(cells, p1, p2, j + 1, hi);
    }
}

/// A line filled with one player's mark makes the position a win for that
/// player, whatever the other cells hold. Rows decide first, then columns,
/// then diagonals, and within a group the first line that one mark fills
/// decides; so the exceptions are a position where an earlier group decides
/// a win for the other player, and one where the first filled line of the
/// line's own group holds another mark.
pub proof fn lemma_full_line_wins(cells: Seq<char>, p1: char, p2: char, k: int)
    requires
        cells.len() == 9,
        0 <= k < LINE_COUNT,
        line_uniform(cells, k),
        cells[line_cell(k, 0)] == p1 || cells[line_cell(k, 0)] == p2,
        first_filled_matches(cells, group_start(k), k),
        k >= 3 && scan_lines(cells, p1, p2, 0, 3).spec_is_win() ==> scan_lines(cells, p1, p2, 0, 3)
            == GameState::spec_from_winner(cells[line_cell(k, 0)], p1, p2),
        k >= 6 && scan_lines(cells, p1, p2, 3, 6).spec_is_win() ==> scan_lines(cells, p1, p2, 3, 6)
            == GameState::spec_from_winner(cells[line_cell(k, 0)], p1, p2),
    ensures
        classify(cells, p1, p2) == GameState::spec_from_winner(cells[line_cell(k, 0)], p1, p2),
        classify(cells, p1, p2).spec_is_win(),
{
    let end = if k < 3 {
        3
    } else if k < 6 {
        6
    } else {
        8
    };
    lemma_scan_reaches(cells, p1, p2, group_start(k), k, end);
}

/// A full board on which no line is filled with a player's mark is a draw.
pub proof fn lemma_full_board_draws(cells: Seq<char>, p1: char, p2: char)
    requires
        cells.len() == 9,
        board_full(cells),
        forall|k: int| 0 <= k < LINE_COUNT ==> !#[trigger] line_wins(cells, p1, p2, k),
    ensures
        classify(cells, p1, p2) == GameState::Draw,
{
    lemma_scan_no_win(cells, p1, p2, 0, 3);
    lemma_scan_no_win(cells, p1, p2, 3, 6);
    lemma_scan_no_win(cells, p1, p2, 6, 8);
}

/// An empty board is a game in progress.
pub proof fn lemma_empty_board_in_progress(cells: Seq<char>, p1: char, p2: char)
    requires
        cells.len() == 9,
        forall|i: int| 0 <= i < 9 ==> cells[i] == EMPTY_CELL,
    ensures
        classify(cells, p1, p2) == GameState::InProgress,
{
    assert forall|k: int| 0 <= k < LINE_COUNT implies !#[trigger] line_wins(cells, p1, p2, k) by {
        assert(!line_uniform(cells, k));
    }
    lemma_scan_no_win(cells, p1, p2, 0, 3);
    lemma_scan_no_win(cells, p1, p2, 3, 6);
    lemma_scan_no_win(cells, p1, p2, 6, 8);
    assert(cells[0] == EMPTY_CELL);
}

/// On a board with a legal move, the best move is legal: its cell is empty.
pub proof fn lemma_best_move_is_legal(game: Game, max_mark: char, min_mark: char, loc: CellLocation)
    requires
        exists|i: int| 0 <= i < 9 && game.cells()[i] == EMPTY_CELL,
        is_best_move_result(game, max_mark, min_mark, loc),
    ensures
        game.cell(loc.row as int, loc.col as int) == EMPTY_CELL,
{
    game.lemma_cells_len();
    lemma_moves_below(game.cells(), 9);
    let i = choose|i: int| 0 <= i < 9 && game.cells()[i] == EMPTY_CELL;
    assert(moves_below(game.cells(), 9).contains(i));
}

/// The value of a position in progress for the side to move is at least the
/// child value of each legal move.
proof fn lemma_value_covers(game: Game, max_mark: char, min_mark: char, idx: int)
    requires
        game.state() is InProgress,
        0 <= idx < 9,
        game.cells()[idx] == EMPTY_CELL,
    ensures
        minimax(game.cells(), game.player1(), game.player2(), max_mark, min_mark, true) >= child_value(
            game.cells(),
            game.player1(),
            game.player2(),
            max_mark,
            min_mark,
            true,
            idx,
        ),
        legal_moves(game.cells()).contains(idx),
{
    game.lemma_cells_len();
    let ms = legal_moves(game.cells());
    lemma_moves_below(game.cells(), 9);
    assert(moves_below(game.cells(), 9).contains(idx));
    let q = choose|q: int| 0 <= q < ms.len() && ms[q] == idx;
    lemma_fold_covers(game.cells(), game.player1(), game.player2(), max_mark, min_mark, true, ms, q);
}

/// Where the side to move can complete a line at once, its best move wins by
/// force, and is a move that completes a line, except where a move that comes
/// earlier in row-major order wins by force without completing a line at once.
pub proof fn lemma_takes_immediate_win(game: Game, max_mark: char, min_mark: char, idx: int, loc: CellLocation)
    requires
        max_mark != EMPTY_CELL,
        min_mark != EMPTY_CELL,
        game.state() is InProgress,
        0 <= idx < 9,
        game.cells()[idx] == EMPTY_CELL,
        completes_line(game, max_mark, idx),
        forall|j: int|
            0 <= j < idx && game.cells()[j] == EMPTY_CELL && #[trigger] child_value(
                game.cells(),
                game.player1(),
                game.player2(),
                max_mark,
                min_mark,
                true,
                j,
            ) == 1 ==> completes_line(game, max_mark, j),
        is_first_best_move(game, max_mark, min_mark, true, loc),
    ensures
        completes_line(game, max_mark, cell_index(loc.row as int, loc.col as int)),
{
    let cells = game.cells();
    let p1 = game.player1();
    let p2 = game.player2();
    let ms = legal_moves(cells);
    game.lemma_cells_len();
    lemma_moves_below(cells, 9);
    lemma_value_covers(game, max_mark, min_mark, idx);
    lemma_empties_update(cells, idx, max_mark);
    assert(child_value(cells, p1, p2, max_mark, min_mark, true, idx) == 1);
    lemma_minimax_bounded(cells, p1, p2, max_mark, min_mark, true);
    let q = choose|q: int| 0 <= q < ms.len() && ms[q] == idx;
    let k = choose|k: int|
        #![trigger ms[k]]
        0 <= k < ms.len() && ms[k] == cell_index(loc.row as int, loc.col as int) && child_value(
            cells,
            p1,
            p2,
            max_mark,
            min_mark,
            true,
            ms[k],
        ) == minimax(cells, p1, p2, max_mark, min_mark, true) && forall|j: int|
            0 <= j < k ==> #[trigger] child_value(cells, p1, p2, max_mark, min_mark, true, ms[j]) < minimax(
                cells,
                p1,
                p2,
                max_mark,
                min_mark,
                true,
            );
    if k > q {
        assert(child_value(cells, p1, p2, max_mark, min_mark, true, ms[q]) < 1);
    }
    if k < q {
        assert(ms[k] < ms[q]);
    }
}

/// Where the opponent threatens to complete a line on the next move and a
/// move that blocks the threat exists, the best move blocks it. The
/// exception is a position lost by force whatever is played (each blocking
/// move loses too) whose first legal move does not block: there every move
/// has the same value and the first one is chosen.
pub proof fn lemma_blocks_threat(game: Game, max_mark: char, min_mark: char, idx: int, loc: CellLocation)
    requires
        max_mark != EMPTY_CELL,
        min_mark != EMPTY_CELL,
        game.state() is InProgress,
        0 <= idx < 9,
        game.cells()[idx] == EMPTY_CELL,
        blocks(game, max_mark, min_mark, idx),
        child_value(game.cells(), game.player1(), game.player2(), max_mark, min_mark, true, idx) >= 0
            || idx == legal_moves(game.cells())[0],
        is_first_best_move(game, max_mark, min_mark, true, loc),
    ensures
        blocks(game, max_mark, min_mark, cell_index(loc.row as int, loc.col as int)),
{
    let cells = game.cells();
    let p1 = game.player1();
    let p2 = game.player2();
    let ms = legal_moves(cells);
    let value = minimax(cells, p1, p2, max_mark, min_mark, true);
    let l = cell_index(loc.row as int, loc.col as int);
    game.lemma_cells_len();
    lemma_moves_below(cells, 9);
    lemma_value_covers(game, max_mark, min_mark, idx);
    if !blocks(game, max_mark, min_mark, l) {
        let k = choose|k: int|
            #![trigger ms[k]]
            0 <= k < ms.len() && ms[k] == l && child_value(cells, p1, p2, max_mark, min_mark, true, ms[k])
                == value && forall|j: int|
                0 <= j < k ==> #[trigger] child_value(cells, p1, p2, max_mark, min_mark, true, ms[j]) < value;
        let after = cells.update(l, max_mark);
        let j = choose|j: int|
            0 <= j < 9 && after[j] == EMPTY_CELL && #[trigger] classify(after.update(j, min_mark), p1, p2).spec_is_win();
        lemma_empties_update(cells, l, max_mark);
        assert(!board_full(after));
        lemma_moves_below(after, 9);
        let ams = legal_moves(after);
        assert(ams.contains(j));
        let r = choose|r: int| 0 <= r < ams.len() && ams[r] == j;
        lemma_fold_covers(after, p1, p2, max_mark, min_mark, false, ams, r);
        lemma_empties_update(after, j, min_mark);
        assert(child_value(after, p1, p2, max_mark, min_mark, false, j) == -1);
        assert(child_value(cells, p1, p2, max_mark, min_mark, true, l) <= -1);
        lemma_child_bounded(cells, p1, p2, max_mark, min_mark, true, idx);
        lemma_child_bounded(cells, p1, p2, max_mark, min_mark, true, ms[0]);
        if k > 0 {
            assert(child_value(cells, p1, p2, max_mark, min_mark, true, ms[0]) < value);
        }
    }
}

proof fn lemma_minimax_negation(cells: Seq<char>, p1: char, p2: char, a: char, b: char, maximizing: bool)
    requires
        cells.len() == 9,
        a != EMPTY_CELL,
        b != EMPTY_CELL,
    ensures
        minimax(cells, p1, p2, a, b, maximizing) == -minimax(cells, p1, p2, b, a, !maximizing),
    decreases empties(cells), 1nat, 0nat,
{
    let st = classify(cells, p1, p2);
    if !st.spec_is_win() && !(st is Draw) {
        lemma_legal_moves_nonempty(cells);
        lemma_fold_negation(cells, p1, p2, a, b, maximizing, legal_moves(cells));
    }
}

proof fn lemma_fold_negation(
    cells: Seq<char>,
    p1: char,
    p2: char,
    a: char,
    b: char,
    maximizing: bool,
    ms: Seq<int>,
)
    requires
        cells.len() == 9,
        a != EMPTY_CELL,
        b != EMPTY_CELL,
        ms.len() > 0,
    ensures
        fold_moves(cells, p1, p2, a, b, maximizing, ms) == -fold_moves(cells, p1, p2, b, a, !maximizing, ms),
    decreases empties(cells), 0nat, ms.len() + 1,
{
    lemma_child_negation(cells, p1, p2, a, b, maximizing, ms.last());
    lemma_child_bounded(cells, p1, p2, a, b, maximizing, ms.last());
    if ms.len() > 1 {
        lemma_fold_negation(cells, p1, p2, a, b, maximizing, ms.drop_last());
    } else {
        assert(ms.drop_last().len() == 0);
        assert(fold_moves(cells, p1, p2, a, b, maximizing, ms.drop_last()) == if maximizing {
            -128int
        } else {
            127int
        });
        assert(fold_moves(cells, p1, p2, b, a, !maximizing, ms.drop_last()) == if !maximizing {
            -128int
        } else {
            127int
        });
    }
}

proof fn lemma_child_negation(
    cells: Seq<char>,
    p1: char,
    p2: char,
    a: char,
    b: char,
    maximizing: bool,
    idx: int,
)
    requires
        cells.len() == 9,
        a != EMPTY_CELL,
        b != EMPTY_CELL,
    ensures
        child_value(cells, p1, p2, a, b, maximizing, idx) == -child_value(cells, p1, p2, b, a, !maximizing, idx),
    decreases empties(cells), 0nat, 0nat,
{
    let mark = mark_to_move(a, b, maximizing);
    if 0 <= idx < cells.len() && cells[idx] == EMPTY_CELL {
        lemma_empties_update(cells, idx, mark);
        lemma_minimax_negation(cells.update(idx, mark), p1, p2, a, b, !maximizing);
    }
}

/// Searching for the side placing `a` as the maximizing side, or for the side
/// placing `b` as the minimizing side with `a` to move, is the same search:
/// the values are each other's negation and the first best move is the same.
pub proof fn lemma_frames_mirror(game: Game, a: char, b: char, max_loc: CellLocation, min_loc: CellLocation)
    requires
        a != EMPTY_CELL,
        b != EMPTY_CELL,
        is_first_best_move(game, a, b, true, max_loc),
        is_first_best_move(game, b, a, false, min_loc),
    ensures
        minimax(game.cells(), game.player1(), game.player2(), a, b, true) == -minimax(
            game.cells(),
            game.player1(),
            game.player2(),
            b,
            a,
            false,
        ),
        max_loc == min_loc,
{
    let cells = game.cells();
    let p1 = game.player1();
    let p2 = game.player2();
    let ms = legal_moves(cells);
    game.lemma_cells_len();
    lemma_moves_below(cells, 9);
    lemma_minimax_negation(cells, p1, p2, a, b, true);
    let value = minimax(cells, p1, p2, a, b, true);
    let k1 = choose|k: int|
        #![trigger ms[k]]
        0 <= k < ms.len() && ms[k] == cell_index(max_loc.row as int, max_loc.col as int) && child_value(
            cells,
            p1,
            p2,
            a,
            b,
            true,
            ms[k],
        ) == value && forall|j: int| 0 <= j < k ==> better(true, value, #[trigger] child_value(cells, p1, p2, a, b, true, ms[j]));
    let k2 = choose|k: int|
        #![trigger ms[k]]
        0 <= k < ms.len() && ms[k] == cell_index(min_loc.row as int, min_loc.col as int) && child_value(
            cells,
            p1,
            p2,
            b,
            a,
            false,
            ms[k],
        ) == -value && forall|j: int|
            0 <= j < k ==> better(false, -value, #[trigger] child_value(cells, p1, p2, b, a, false, ms[j]));
    lemma_child_negation(cells, p1, p2, a, b, true, ms[k1]);
    lemma_child_negation(cells, p1, p2, a, b, true, ms[k2]);
    if k1 < k2 {
        assert(better(false, -value, child_value(cells, p1, p2, b, a, false, ms[k1])));
    }
    if k2 < k1 {
        assert(better(true, value, child_value(cells, p1, p2, a, b, true, ms[k2])));
    }
}

} // verus!
