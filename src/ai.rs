//! The search for the best move: minimax with alpha-beta pruning, run to the
//! end of the game, proved against the plain minimax value of a position.
use vstd::prelude::*;

use crate::game::{board_full, cell_index, classify, Game, DIMENSION, EMPTY_CELL};
use crate::game_state::GameState;

verus! {

/// A cell of the board, by row and column.
#[derive(Clone, Copy, Debug, PartialEq, Eq, Structural)]
pub struct CellLocation {
    pub row: usize,
    pub col: usize,
}

/// The number of empty cells.
pub open spec fn empties(cells: Seq<char>) -> nat
    decreases cells.len(),
{
    if cells.len() == 0 {
        0
    } else {
        empties(cells.drop_last()) + if cells.last() == EMPTY_CELL {
            1nat
        } else {
            0nat
        }
    }
}

/// The indices of the empty cells among the first `n`, ascending.
pub open spec fn moves_below(cells: Seq<char>, n: int) -> Seq<int>
    decreases n,
{
    if n <= 0 {
        Seq::empty()
    } else if cells[n - 1] == EMPTY_CELL {
        moves_below(cells, n - 1).push(n - 1)
    } else {
        moves_below(cells, n - 1)
    }
}

/// The legal moves, as cell indices in row-major order.
pub open spec fn legal_moves(cells: Seq<char>) -> Seq<int> {
    moves_below(cells, 9)
}

/// The mark that the side to move places: the maximizing side's in a
/// maximizing frame, the other one's otherwise.
pub open spec fn mark_to_move(max_mark: char, min_mark: char, maximizing: bool) -> char {
    if maximizing {
        max_mark
    } else {
        min_mark
    }
}

/// The value of the position that placing the mover's mark on cell `idx`
/// leads to (zero where `idx` is no empty cell or the mark is empty).
pub open spec fn child_value(
    cells: Seq<char>,
    p1: char,
    p2: char,
    max_mark: char,
    min_mark: char,
    maximizing: bool,
    idx: int,
) -> int
    decreases empties(cells), 0nat, 0nat,
{
    let mark = mark_to_move(max_mark, min_mark, maximizing);
    if 0 <= idx < cells.len() && cells[idx] == EMPTY_CELL && mark != EMPTY_CELL {
        proof {
            lemma_empties_update(cells, idx, mark);
        }
        minimax(cells.update(idx, mark), p1, p2, max_mark, min_mark, !maximizing)
    } else {
        0
    }
}

/// The best child value over the moves `ms`: their maximum in a maximizing
/// frame, their minimum otherwise; the extreme `i8` value where `ms` is empty.
pub open spec fn fold_moves(
    cells: Seq<char>,
    p1: char,
    p2: char,
    max_mark: char,
    min_mark: char,
    maximizing: bool,
    ms: Seq<int>,
) -> int
    decreases empties(cells), 0nat, ms.len() + 1,
{
    if ms.len() == 0 {
        if maximizing {
            -128
        } else {
            127
        }
    } else {
        let rest = fold_moves(cells, p1, p2, max_mark, min_mark, maximizing, ms.drop_last());
        let v = child_value(cells, p1, p2, max_mark, min_mark, maximizing, ms.last());
        if maximizing {
            if v > rest {
                v
            } else {
                rest
            }
        } else {
            if v < rest {
                v
            } else {
                rest
            }
        }
    }
}

/// The minimax value of a position, for the side that places `max_mark`:
/// -1 where the position is won in a maximizing frame (the minimizing side
/// made the last move) and +1 where it is won in a minimizing frame, 0 for a
/// draw, and otherwise the best child value over the legal moves.
pub open spec fn minimax(
    cells: Seq<char>,
    p1: char,
    p2: char,
    max_mark: char,
    min_mark: char,
    maximizing: bool,
) -> int
    decreases empties(cells), 1nat, 0nat,
{
    let st = classify(cells, p1, p2);
    if st.spec_is_win() {
        if maximizing {
            -1
        } else {
            1
        }
    } else if st is Draw {
        0
    } else {
        fold_moves(cells, p1, p2, max_mark, min_mark, maximizing, legal_moves(cells))
    }
}

/// `x` is better than `y` for the side to move: greater in a maximizing
/// frame, smaller in a minimizing one.
pub open spec fn better(maximizing: bool, x: int, y: int) -> bool {
    if maximizing {
        x > y
    } else {
        x < y
    }
}

/// `loc` is the move in row-major order that comes first among those of the
/// best value for the side to move: `max_mark`'s side in a maximizing frame,
/// `min_mark`'s side otherwise.
pub open spec fn is_first_best_move(
    game: Game,
    max_mark: char,
    min_mark: char,
    maximizing: bool,
    loc: CellLocation,
) -> bool {
    let cells = game.cells();
    let ms = legal_moves(cells);
    let value = minimax(cells, game.player1(), game.player2(), max_mark, min_mark, maximizing);
    &&& loc.row < DIMENSION
    &&& loc.col < DIMENSION
    &&& exists|k: int|
        #![trigger ms[k]]
        0 <= k < ms.len() && ms[k] == cell_index(loc.row as int, loc.col as int)
            && child_value(cells, game.player1(), game.player2(), max_mark, min_mark, maximizing, ms[k]) == value
            && forall|j: int|
            0 <= j < k ==> better(
                maximizing,
                value,
                #[trigger] child_value(cells, game.player1(), game.player2(), max_mark, min_mark, maximizing, ms[j]),
            )
}

/// Placing a mark on an empty cell leaves one empty cell fewer.
pub proof fn lemma_empties_update(cells: Seq<char>, idx: int, mark: char)
    requires
        0 <= idx < cells.len(),
        cells[idx] == EMPTY_CELL,
        mark != EMPTY_CELL,
    ensures
        empties(cells.update(idx, mark)) + 1 == empties(cells),
    decreases cells.len(),
{
    let u = cells.update(idx, mark);
    if idx == cells.len() - 1 {
        assert(u.drop_last() =~= cells.drop_last());
    } else {
        assert(u.drop_last() =~= cells.drop_last().update(idx, mark));
        lemma_empties_update(cells.drop_last(), idx, mark);
    }
}

/// The moves below `n` are the empty cells below `n`, each once, ascending.
pub proof fn lemma_moves_below(cells: Seq<char>, n: int)
    requires
        0 <= n <= cells.len(),
    ensures
        forall|j: int|
            0 <= j < moves_below(cells, n).len() ==> 0 <= #[trigger] moves_below(cells, n)[j] < n
                && cells[moves_below(cells, n)[j]] == EMPTY_CELL,
        forall|j1: int, j2: int|
            0 <= j1 < j2 < moves_below(cells, n).len() ==> #[trigger] moves_below(cells, n)[j1]
                < #[trigger] moves_below(cells, n)[j2],
        forall|i: int|
            0 <= i < n && cells[i] == EMPTY_CELL ==> #[trigger] moves_below(cells, n).contains(i),
    decreases n,
{
    if n > 0 {
        lemma_moves_below(cells, n - 1);
        let prev = moves_below(cells, n - 1);
        if cells[n - 1] == EMPTY_CELL {
            assert forall|i: int| 0 <= i < n && cells[i] == EMPTY_CELL implies #[trigger] moves_below(
                cells,
                n,
            ).contains(i) by {
                if i == n - 1 {
                    assert(moves_below(cells, n)[prev.len() as int] == i);
                } else {
                    assert(prev.contains(i));
                    let j = choose|j: int| 0 <= j < prev.len() && prev[j] == i;
                    assert(moves_below(cells, n)[j] == i);
                }
            }
        }
    }
}

/// A position with an empty cell has a legal move.
pub proof fn lemma_legal_moves_nonempty(cells: Seq<char>)
    requires
        cells.len() == 9,
        !board_full(cells),
    ensures
        legal_moves(cells).len() > 0,
{
    lemma_moves_below(cells, 9);
    let i = choose|i: int| 0 <= i < 9 && cells[i] != EMPTY_CELL == false;
    assert(legal_moves(cells).contains(i));
}

/// Every minimax value is a loss, a draw or a win: -1, 0 or 1.
pub proof fn lemma_minimax_bounded(
    cells: Seq<char>,
    p1: char,
    p2: char,
    max_mark: char,
    min_mark: char,
    maximizing: bool,
)
    requires
        cells.len() == 9,
        max_mark != EMPTY_CELL,
        min_mark != EMPTY_CELL,
    ensures
        -1 <= minimax(cells, p1, p2, max_mark, min_mark, maximizing) <= 1,
    decreases empties(cells), 1nat, 0nat,
{
    let st = classify(cells, p1, p2);
    if !st.spec_is_win() && !(st is Draw) {
        lemma_legal_moves_nonempty(cells);
        lemma_fold_bounded(cells, p1, p2, max_mark, min_mark, maximizing, legal_moves(cells));
    }
}

/// The best child value over a non-empty set of moves is -1, 0 or 1.
pub proof fn lemma_fold_bounded(
    cells: Seq<char>,
    p1: char,
    p2: char,
    max_mark: char,
    min_mark: char,
    maximizing: bool,
    ms: Seq<int>,
)
    requires
        cells.len() == 9,
        max_mark != EMPTY_CELL,
        min_mark != EMPTY_CELL,
        ms.len() > 0,
    ensures
        -1 <= fold_moves(cells, p1, p2, max_mark, min_mark, maximizing, ms) <= 1,
    decreases empties(cells), 0nat, ms.len() + 1,
{
    lemma_child_bounded(cells, p1, p2, max_mark, min_mark, maximizing, ms.last());
    if ms.len() > 1 {
        lemma_fold_bounded(cells, p1, p2, max_mark, min_mark, maximizing, ms.drop_last());
    } else {
        assert(ms.drop_last().len() == 0);
        assert(fold_moves(cells, p1, p2, max_mark, min_mark, maximizing, ms.drop_last()) == if maximizing {
            -128int
        } else {
            127int
        });
    }
}

/// Every child value is -1, 0 or 1.
pub proof fn lemma_child_bounded(
    cells: Seq<char>,
    p1: char,
    p2: char,
    max_mark: char,
    min_mark: char,
    maximizing: bool,
    idx: int,
)
    requires
        cells.len() == 9,
        max_mark != EMPTY_CELL,
        min_mark != EMPTY_CELL,
    ensures
        -1 <= child_value(cells, p1, p2, max_mark, min_mark, maximizing, idx) <= 1,
    decreases empties(cells), 0nat, 0nat,
{
    let mark = mark_to_move(max_mark, min_mark, maximizing);
    if 0 <= idx < cells.len() && cells[idx] == EMPTY_CELL {
        lemma_empties_update(cells, idx, mark);
        lemma_minimax_bounded(cells.update(idx, mark), p1, p2, max_mark, min_mark, !maximizing);
    }
}

/// The fold over one more move combines the fold over the earlier ones with
/// that move's child value.
pub proof fn lemma_fold_take_step(
    cells: Seq<char>,
    p1: char,
    p2: char,
    max_mark: char,
    min_mark: char,
    maximizing: bool,
    ms: Seq<int>,
    i: int,
)
    requires
        0 <= i < ms.len(),
    ensures
        ({
            let rest = fold_moves(cells, p1, p2, max_mark, min_mark, maximizing, ms.take(i));
            let v = child_value(cells, p1, p2, max_mark, min_mark, maximizing, ms[i]);
            fold_moves(cells, p1, p2, max_mark, min_mark, maximizing, ms.take(i + 1)) == if maximizing {
                if v > rest {
                    v
                } else {
                    rest
                }
            } else {
                if v < rest {
                    v
                } else {
                    rest
                }
            }
        }),
{
    assert(ms.take(i + 1).drop_last() =~= ms.take(i));
    assert(ms.take(i + 1).last() == ms[i]);
}

/// The best value over a prefix of the moves is no better for the side to
/// move than the best value over all of them.
pub proof fn lemma_fold_prefix(
    cells: Seq<char>,
    p1: char,
    p2: char,
    max_mark: char,
    min_mark: char,
    maximizing: bool,
    ms: Seq<int>,
    i: int,
)
    requires
        0 <= i <= ms.len(),
    ensures
        maximizing ==> fold_moves(cells, p1, p2, max_mark, min_mark, maximizing, ms.take(i))
            <= fold_moves(cells, p1, p2, max_mark, min_mark, maximizing, ms),
        !maximizing ==> fold_moves(cells, p1, p2, max_mark, min_mark, maximizing, ms.take(i))
            >= fold_moves(cells, p1, p2, max_mark, min_mark, maximizing, ms),
    decreases ms.len(),
{
    if i == ms.len() {
        assert(ms.take(i) =~= ms);
    } else {
        lemma_fold_prefix(cells, p1, p2, max_mark, min_mark, maximizing, ms.drop_last(), i);
        assert(ms.drop_last().take(i) =~= ms.take(i));
    }
}

/// The best value over the moves is at least as good for the side to move as
/// the child value of each of them.
pub proof fn lemma_fold_covers(
    cells: Seq<char>,
    p1: char,
    p2: char,
    max_mark: char,
    min_mark: char,
    maximizing: bool,
    ms: Seq<int>,
    j: int,
)
    requires
        0 <= j < ms.len(),
    ensures
        maximizing ==> fold_moves(cells, p1, p2, max_mark, min_mark, maximizing, ms) >= child_value(
            cells,
            p1,
            p2,
            max_mark,
            min_mark,
            maximizing,
            ms[j],
        ),
        !maximizing ==> fold_moves(cells, p1, p2, max_mark, min_mark, maximizing, ms) <= child_value(
            cells,
            p1,
            p2,
            max_mark,
            min_mark,
            maximizing,
            ms[j],
        ),
{
    lemma_fold_take_step(cells, p1, p2, max_mark, min_mark, maximizing, ms, j);
    lemma_fold_prefix(cells, p1, p2, max_mark, min_mark, maximizing, ms, j + 1);
}

/// `locs` names, by row and column, the cell indices `ms`.
pub open spec fn locations_match(locs: Seq<CellLocation>, ms: Seq<int>) -> bool {
    &&& locs.len() == ms.len()
    &&& forall|j: int|
        0 <= j < locs.len() ==> (#[trigger] locs[j]).row < DIMENSION && locs[j].col < DIMENSION
            && cell_index(locs[j].row as int, locs[j].col as int) == ms[j]
}

/// The legal moves of the position, in row-major order.
fn get_possible_moves(game: &Game) -> (r: Vec<CellLocation>)
    ensures
        locations_match(r@, legal_moves(game.cells())),
{
    let ghost cells = game.cells();
    let mut r: Vec<CellLocation> = Vec::new();
    let mut row: usize = 0;
    while row < game.dimensions()
        invariant
            row <= DIMENSION,
            cells == game.cells(),
            locations_match(r@, moves_below(cells, cell_index(row as int, 0))),
        decreases DIMENSION - row,
    {
        let mut col: usize = 0;
        while col < game.dimensions()
            invariant
                row < DIMENSION,
                col <= DIMENSION,
                cells == game.cells(),
                locations_match(r@, moves_below(cells, cell_index(row as int, col as int))),
            decreases DIMENSION - col,
        {
            if game.is_valid_move(row, col) {
                r.push(CellLocation { row, col });
            }
            assert(cell_index(row as int, col as int) + 1 == cell_index(row as int, col + 1));
            col += 1;
        }
        row += 1;
    }
    r
}

/// The best move for the side that places `current_player_symbol` against the
/// side that places `other_player_symbol`: of the legal moves in row-major
/// order, the first one of the best minimax value. On a position whose game
/// is over no move is searched: the result is the first empty cell, or
/// `(0, 0)` on a full board.
pub fn get_best_move(game: &Game, current_player_symbol: char, other_player_symbol: char) -> (r: CellLocation)
    requires
        current_player_symbol != EMPTY_CELL,
        other_player_symbol != EMPTY_CELL,
    ensures
        is_best_move_result(*game, current_player_symbol, other_player_symbol, r),
{
    if game.get_game_state() == GameState::InProgress {
        let (_, cell_location) = alpha_beta(
            game,
            current_player_symbol,
            i8::MIN,
            other_player_symbol,
            i8::MAX,
            true,
        );
        cell_location
    } else {
        let moves = get_possible_moves(game);
        if moves.len() > 0 {
            moves[0]
        } else {
            CellLocation { row: 0, col: 0 }
        }
    }
}

/// What `get_best_move` returns: the first move of the best value on a
/// position in progress; on a finished one, the first empty cell in
/// row-major order, or `(0, 0)` on a full board.
pub open spec fn is_best_move_result(game: Game, max_mark: char, min_mark: char, loc: CellLocation) -> bool {
    let ms = legal_moves(game.cells());
    &&& game.state() is InProgress ==> is_first_best_move(game, max_mark, min_mark, true, loc)
    &&& !(game.state() is InProgress) && ms.len() > 0 ==> {
        &&& loc.row < DIMENSION
        &&& loc.col < DIMENSION
        &&& cell_index(loc.row as int, loc.col as int) == ms[0]
    }
    &&& !(game.state() is InProgress) && ms.len() == 0 ==> is_origin(loc)
}

/// What an alpha-beta search of the window `(alpha, beta)` promises of the
/// score `score` for a position of minimax value `value`: the value itself
/// inside the window, and on the side of the window where it falls outside,
/// a score on that side too that bounds the value.
pub open spec fn within_window(score: int, value: int, alpha: int, beta: int) -> bool {
    &&& -1 <= score <= 1
    &&& alpha < value < beta ==> score == value
    &&& alpha < score < beta ==> score == value
    &&& value <= alpha ==> score <= alpha
    &&& value >= beta ==> score >= beta
    &&& score <= alpha ==> value <= score
    &&& score >= beta ==> value >= score
}

/// The location `(0, 0)`, which a search of a finished position returns.
pub open spec fn is_origin(loc: CellLocation) -> bool {
    loc.row == 0 && loc.col == 0
}

/// Minimax with alpha-beta pruning over the window `(alpha, beta)`, in a
/// maximizing frame where `alpha_player` is to move and in a minimizing frame
/// where `beta_player` is. Each move is tried on a copy of the position, in
/// row-major order; a move is kept only where it scores strictly better than
/// the best so far, and the remaining moves are cut off once a score reaches
/// the far side of the window.
fn alpha_beta(
    game: &Game,
    alpha_player: char,
    alpha: i8,
    beta_player: char,
    beta: i8,
    maximizing_player: bool,
) -> (r: (i8, CellLocation))
    requires
        alpha < beta,
        alpha_player != EMPTY_CELL,
        beta_player != EMPTY_CELL,
    ensures
        within_window(
            r.0 as int,
            minimax(game.cells(), game.player1(), game.player2(), alpha_player, beta_player, maximizing_player),
            alpha as int,
            beta as int,
        ),
        game.state().spec_is_win() ==> r.0 == if maximizing_player {
            -1int
        } else {
            1int
        },
        game.state() is Draw ==> r.0 == 0,
        game.state() is InProgress && alpha < -1 && beta > 1 ==> is_first_best_move(
            *game,
            alpha_player,
            beta_player,
            maximizing_player,
            r.1,
        ),
        !(game.state() is InProgress) ==> is_origin(r.1),
    decreases empties(game.cells()),
{
    let ghost cells = game.cells();
    let ghost p1 = game.player1();
    let ghost p2 = game.player2();
    let ghost ms = legal_moves(cells);
    let ghost value = minimax(cells, p1, p2, alpha_player, beta_player, maximizing_player);
    proof {
        game.lemma_cells_len();
    }
    let game_state = game.get_game_state();
    if game_state.is_win() {
        if maximizing_player {
            return (-1, CellLocation { row: 0, col: 0 });
        }
        return (1, CellLocation { row: 0, col: 0 });
    }
    if game_state == GameState::Draw {
        return (0, CellLocation { row: 0, col: 0 });
    }
    proof {
        lemma_moves_below(cells, 9);
        lemma_legal_moves_nonempty(cells);
        assert(value == fold_moves(cells, p1, p2, alpha_player, beta_player, maximizing_player, ms));
        assert(ms.take(ms.len() as int) =~= ms);
    }
    let moves = get_possible_moves(game);
    let alpha0 = alpha;
    let beta0 = beta;
    let mut alpha = alpha;
    let mut beta = beta;
    let root = alpha < -1 && beta > 1;
    if maximizing_player {
        let mut maximized_move: (i8, CellLocation) = (i8::MIN, CellLocation { row: 0, col: 0 });
        let ghost mut bk: int = 0;
        let mut i: usize = 0;
        while i < moves.len()
            invariant_except_break
                beta == beta0,
                i > 0 ==> -1 <= maximized_move.0 <= 1,
                i == 0 ==> maximized_move.0 == i8::MIN,
                alpha0 <= alpha < beta,
                forall|j: int|
                    0 <= j < i ==> #[trigger] child_value(cells, p1, p2, alpha_player, beta_player, true, ms[j])
                        < beta,
                ({
                    let m = fold_moves(cells, p1, p2, alpha_player, beta_player, true, ms.take(i as int));
                    &&& m <= maximized_move.0
                    &&& m > alpha0 ==> maximized_move.0 == m && alpha == m
                    &&& forall|j: int|
                        0 <= j < i ==> #[trigger] child_value(cells, p1, p2, alpha_player, beta_player, true, ms[j])
                            <= m
                    &&& m <= alpha0 ==> maximized_move.0 <= alpha0 && alpha == alpha0
                    &&& root && i > 0 ==> {
                        &&& 0 <= bk < i
                        &&& moves@[bk] == maximized_move.1
                        &&& child_value(cells, p1, p2, alpha_player, beta_player, true, ms[bk]) == m
                        &&& forall|j: int|
                            0 <= j < bk ==> #[trigger] child_value(
                                cells,
                                p1,
                                p2,
                                alpha_player,
                                beta_player,
                                true,
                                ms[j],
                            ) < m
                    }
                }),
            invariant
                0 <= i <= moves@.len(),
                cells == game.cells(),
                cells.len() == 9,
                p1 == game.player1(),
                p2 == game.player2(),
                ms == legal_moves(cells),
                ms.len() > 0,
                ms.take(ms.len() as int) == ms,
                locations_match(moves@, ms),
                forall|j: int| 0 <= j < ms.len() ==> 0 <= #[trigger] ms[j] < 9 && cells[ms[j]] == EMPTY_CELL,
                alpha_player != EMPTY_CELL,
                beta_player != EMPTY_CELL,
                root == (alpha0 < -1 && beta0 > 1),
                alpha0 < beta0,
            ensures
                -1 <= maximized_move.0 <= 1,
                ({
                    let m = fold_moves(cells, p1, p2, alpha_player, beta_player, true, ms);
                    &&& alpha0 < maximized_move.0 < beta0 ==> maximized_move.0 == m
                    &&& maximized_move.0 <= alpha0 ==> m <= maximized_move.0
                    &&& maximized_move.0 >= beta0 ==> m >= maximized_move.0
                    &&& alpha0 < m < beta0 ==> maximized_move.0 == m
                    &&& m <= alpha0 ==> maximized_move.0 <= alpha0
                    &&& m >= beta0 ==> maximized_move.0 >= beta0
                    &&& root ==> {
                        &&& 0 <= bk < ms.len()
                        &&& moves@[bk] == maximized_move.1
                        &&& child_value(cells, p1, p2, alpha_player, beta_player, true, ms[bk]) == m
                        &&& forall|j: int|
                            0 <= j < bk ==> #[trigger] child_value(
                                cells,
                                p1,
                                p2,
                                alpha_player,
                                beta_player,
                                true,
                                ms[j],
                            ) < m
                    }
                }),
            decreases moves@.len() - i,
        {
            let cell_location = moves[i];
            let mut game_copy = *game;
            game_copy.set_cell_value(cell_location.row, cell_location.col, alpha_player);
            proof {
                lemma_empties_update(cells, ms[i as int], alpha_player);
                lemma_fold_take_step(cells, p1, p2, alpha_player, beta_player, true, ms, i as int);
                lemma_fold_prefix(cells, p1, p2, alpha_player, beta_player, true, ms, i + 1);
                lemma_child_bounded(cells, p1, p2, alpha_player, beta_player, true, ms[i as int]);
                assert(game_copy.cells() == cells.update(ms[i as int], alpha_player));
            }
            let result = alpha_beta(&game_copy, alpha_player, alpha, beta_player, beta, false);
            assert(child_value(cells, p1, p2, alpha_player, beta_player, true, ms[i as int])
                == minimax(game_copy.cells(), p1, p2, alpha_player, beta_player, false));
            if result.0 > maximized_move.0 {
                maximized_move = (result.0, cell_location);
                proof {
                    bk = i as int;
                }
            }
            if result.0 >= beta {
                break;
            }
            alpha = if alpha > result.0 {
                alpha
            } else {
                result.0
            };
            i += 1;
        }
        maximized_move
    } else {
        let mut minimized_move: (i8, CellLocation) = (i8::MAX, CellLocation { row: 0, col: 0 });
        let ghost mut bk: int = 0;
        let mut i: usize = 0;
        while i < moves.len()
            invariant_except_break
                alpha == alpha0,
                i > 0 ==> -1 <= minimized_move.0 <= 1,
                i == 0 ==> minimized_move.0 == i8::MAX,
                alpha < beta <= beta0,
                forall|j: int|
                    0 <= j < i ==> #[trigger] child_value(cells, p1, p2, alpha_player, beta_player, false, ms[j])
                        > alpha,
                ({
                    let m = fold_moves(cells, p1, p2, alpha_player, beta_player, false, ms.take(i as int));
                    &&& m >= minimized_move.0
                    &&& m < beta0 ==> minimized_move.0 == m && beta == m
                    &&& m >= beta0 ==> minimized_move.0 >= beta0 && beta == beta0
                    &&& forall|j: int|
                        0 <= j < i ==> #[trigger] child_value(cells, p1, p2, alpha_player, beta_player, false, ms[j])
                            >= m
                    &&& root && i > 0 ==> {
                        &&& 0 <= bk < i
                        &&& moves@[bk] == minimized_move.1
                        &&& child_value(cells, p1, p2, alpha_player, beta_player, false, ms[bk]) == m
                        &&& forall|j: int|
                            0 <= j < bk ==> #[trigger] child_value(
                                cells,
                                p1,
                                p2,
                                alpha_player,
                                beta_player,
                                false,
                                ms[j],
                            ) > m
                    }
                }),
            invariant
                0 <= i <= moves@.len(),
                cells == game.cells(),
                cells.len() == 9,
                p1 == game.player1(),
                p2 == game.player2(),
                ms == legal_moves(cells),
                ms.len() > 0,
                ms.take(ms.len() as int) == ms,
                locations_match(moves@, ms),
                forall|j: int| 0 <= j < ms.len() ==> 0 <= #[trigger] ms[j] < 9 && cells[ms[j]] == EMPTY_CELL,
                alpha_player != EMPTY_CELL,
                beta_player != EMPTY_CELL,
                root == (alpha0 < -1 && beta0 > 1),
                alpha0 < beta0,
            ensures
                -1 <= minimized_move.0 <= 1,
                ({
                    let m = fold_moves(cells, p1, p2, alpha_player, beta_player, false, ms);
                    &&& alpha0 < minimized_move.0 < beta0 ==> minimized_move.0 == m
                    &&& minimized_move.0 <= alpha0 ==> m <= minimized_move.0
                    &&& minimized_move.0 >= beta0 ==> m >= minimized_move.0
                    &&& alpha0 < m < beta0 ==> minimized_move.0 == m
                    &&& m <= alpha0 ==> minimized_move.0 <= alpha0
                    &&& m >= beta0 ==> minimized_move.0 >= beta0
                    &&& root ==> {
                        &&& 0 <= bk < ms.len()
                        &&& moves@[bk] == minimized_move.1
                        &&& child_value(cells, p1, p2, alpha_player, beta_player, false, ms[bk]) == m
                        &&& forall|j: int|
                            0 <= j < bk ==> #[trigger] child_value(
                                cells,
                                p1,
                                p2,
                                alpha_player,
                                beta_player,
                                false,
                                ms[j],
                            ) > m
                    }
                }),
            decreases moves@.len() - i,
        {
            let cell_location = moves[i];
            let mut game_copy = *game;
            game_copy.set_cell_value(cell_location.row, cell_location.col, beta_player);
            proof {
                lemma_empties_update(cells, ms[i as int], beta_player);
                lemma_fold_take_step(cells, p1, p2, alpha_player, beta_player, false, ms, i as int);
                lemma_fold_prefix(cells, p1, p2, alpha_player, beta_player, false, ms, i + 1);
                lemma_child_bounded(cells, p1, p2, alpha_player, beta_player, false, ms[i as int]);
                assert(game_copy.cells() == cells.update(ms[i as int], beta_player));
            }
            let result = alpha_beta(&game_copy, alpha_player, alpha, beta_player, beta, true);
            assert(child_value(cells, p1, p2, alpha_player, beta_player, false, ms[i as int])
                == minimax(game_copy.cells(), p1, p2, alpha_player, beta_player, true));
            if result.0 < minimized_move.0 {
                minimized_move = (result.0, cell_location);
                proof {
                    bk = i as int;
                }
            }
            if result.0 <= alpha {
                break;
            }
            beta = if beta < result.0 {
                beta
            } else {
                result.0
            };
            i += 1;
        }
        minimized_move
    }
}

} // verus!
