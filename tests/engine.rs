use tictactoe::ai::{get_best_move, CellLocation};
use tictactoe::game::Game;
use tictactoe::game_state::{game_over_message, is_gave_over, GameState};

fn board(rows: [&str; 3]) -> Game {
    let mut game = Game::new('X', 'O');
    for (row, line) in rows.iter().enumerate() {
        for (col, c) in line.chars().enumerate() {
            if c != '.' {
                game.set_cell_value(row, col, c);
            }
        }
    }
    game
}

fn play_out(mut game: Game, mut to_move: char, mut other: char) -> GameState {
    while game.get_game_state() == GameState::InProgress {
        let m = get_best_move(&game, to_move, other);
        assert!(game.is_valid_move(m.row, m.col));
        game.set_cell_value(m.row, m.col, to_move);
        std::mem::swap(&mut to_move, &mut other);
    }
    game.get_game_state()
}

#[test]
fn messages_for_each_state() {
    assert_eq!(game_over_message(GameState::InProgress), "InProgress");
    assert_eq!(game_over_message(GameState::Draw), "Draw");
    assert_eq!(game_over_message(GameState::Player1), "Player 1 wins!");
    assert_eq!(game_over_message(GameState::Player2), "Player 2 wins!");
}

#[test]
fn from_winner_maps_marks_to_players() {
    assert_eq!(GameState::from_winner('X', 'X', 'O'), GameState::Player1);
    assert_eq!(GameState::from_winner('O', 'X', 'O'), GameState::Player2);
    assert_eq!(GameState::from_winner('Z', 'X', 'O'), GameState::InProgress);
    assert_eq!(GameState::from_winner('X', 'X', 'X'), GameState::Player1);
}

#[test]
fn game_over_for_every_finished_state() {
    assert!(is_gave_over(GameState::Draw));
    assert!(!GameState::InProgress.is_win());
    assert!(!is_gave_over(GameState::InProgress));
}

#[test]
fn cells_read_back_what_was_set() {
    let mut game = Game::new('X', 'O');
    assert_eq!(game.dimensions(), 3);
    assert_eq!(game.get_cell_value(2, 1), ' ');
    game.set_cell_value(2, 1, 'O');
    assert_eq!(game.get_cell_value(2, 1), 'O');
    assert_eq!(game.get_cell_value(1, 2), ' ');
    assert!(!game.is_valid_move(2, 1));
    assert!(game.is_valid_move(1, 2));
}

#[test]
fn line_wins_whatever_the_other_cells_hold() {
    let game = board(["OXO", "XXX", "O.O"]);
    assert_eq!(game.get_game_state(), GameState::Player1);
    let game = board(["O.X", "OX.", "OX."]);
    assert_eq!(game.get_game_state(), GameState::Player2);
    let game = board(["..O", "XO.", "OX."]);
    assert_eq!(game.get_game_state(), GameState::Player2);
}

#[test]
fn rows_are_scanned_before_columns_and_diagonals() {
    let game = board(["OOO", "XXX", "..."]);
    assert_eq!(game.get_game_state(), GameState::Player2);
    let game = board(["X.O", "XXO", "X.O"]);
    assert_eq!(game.get_game_state(), GameState::Player1);
    let game = board(["XXX", "OOO", "..."]);
    assert_eq!(game.get_game_state(), GameState::Player1);
}

#[test]
fn first_filled_line_of_a_group_decides() {
    let game = board(["ZZZ", "OOO", "..."]);
    assert_eq!(game.get_game_state(), GameState::InProgress);
    let game = board(["ZZZ", "XXX", "..."]);
    assert_eq!(game.get_game_state(), GameState::InProgress);
    let game = board(["ZX.", "ZX.", "ZX."]);
    assert_eq!(game.get_game_state(), GameState::InProgress);
    let game = board(["ZZZ", "..X", "..."]);
    assert_eq!(game.get_game_state(), GameState::InProgress);
    let game = board(["ZZZ", "XOX", "OXO"]);
    assert_eq!(game.get_game_state(), GameState::Draw);
}

#[test]
fn full_board_with_a_win_is_no_draw() {
    let game = board(["XOX", "OXO", "OXX"]);
    assert_eq!(game.get_game_state(), GameState::Player1);
}

#[test]
fn best_move_takes_an_immediate_win() {
    let game = board(["XX.", "OO.", "..."]);
    let m = get_best_move(&game, 'X', 'O');
    assert_eq!(m, CellLocation { row: 0, col: 2 });
}

#[test]
fn earlier_forced_win_is_preferred_to_immediate_win() {
    // O could complete the middle row at (1, 2), but (0, 2) comes first and
    // also wins by force: X must block at (1, 2), then O completes the
    // diagonal at (2, 0).
    let mut game = board(["XX.", "OO.", "..."]);
    let m = get_best_move(&game, 'O', 'X');
    assert_eq!(m, CellLocation { row: 0, col: 2 });
    game.set_cell_value(0, 2, 'O');
    let reply = get_best_move(&game, 'X', 'O');
    assert_eq!(reply, CellLocation { row: 1, col: 2 });
    game.set_cell_value(1, 2, 'X');
    let finish = get_best_move(&game, 'O', 'X');
    assert_eq!(finish, CellLocation { row: 2, col: 0 });
    game.set_cell_value(2, 0, 'O');
    assert_eq!(game.get_game_state(), GameState::Player2);
}

#[test]
fn best_move_blocks_a_diagonal_threat() {
    let game = board(["O.X", ".X.", "..."]);
    let m = get_best_move(&game, 'O', 'X');
    assert_eq!(m, CellLocation { row: 2, col: 0 });
}

#[test]
fn best_move_in_row_scenario() {
    let game = board(["OO.", "X..", "X.."]);
    let m = get_best_move(&game, 'O', 'X');
    assert_eq!(m.row, 0);
    assert_eq!(m.col, 2);
}

#[test]
fn best_move_on_empty_board_is_first_cell() {
    let game = Game::new('X', 'O');
    let m = get_best_move(&game, 'X', 'O');
    assert_eq!(m, CellLocation { row: 0, col: 0 });
}

#[test]
fn best_move_on_full_board_is_origin() {
    let full = board(["XXO", "OOX", "XOX"]);
    assert_eq!(full.get_game_state(), GameState::Draw);
    assert_eq!(get_best_move(&full, 'X', 'O'), CellLocation { row: 0, col: 0 });
}

#[test]
fn best_move_on_won_board_is_first_empty_cell() {
    let won = board(["XXX", "OO.", "..."]);
    assert_eq!(won.get_game_state(), GameState::Player1);
    let m = get_best_move(&won, 'O', 'X');
    assert_eq!(m, CellLocation { row: 1, col: 2 });
    assert!(won.is_valid_move(m.row, m.col));
    let won = board(["O..", "XXX", "O.."]);
    assert_eq!(get_best_move(&won, 'O', 'X'), CellLocation { row: 0, col: 1 });
}

#[test]
fn best_move_is_always_legal() {
    let positions = [
        board(["X..", "...", "..."]),
        board(["X.O", ".X.", "..."]),
        board(["XOX", "OX.", "..."]),
        board(["XOX", "XOO", "O.X"]),
    ];
    for game in positions.iter() {
        for (a, b) in [('X', 'O'), ('O', 'X')] {
            let m = get_best_move(game, a, b);
            assert!(game.is_valid_move(m.row, m.col));
        }
    }
}

#[test]
fn optimal_play_from_empty_board_draws() {
    assert_eq!(play_out(Game::new('X', 'O'), 'X', 'O'), GameState::Draw);
    assert_eq!(play_out(Game::new('X', 'O'), 'O', 'X'), GameState::Draw);
}

#[test]
fn optimal_play_after_each_opening_draws() {
    for row in 0..3 {
        for col in 0..3 {
            let mut game = Game::new('X', 'O');
            game.set_cell_value(row, col, 'X');
            assert_eq!(play_out(game, 'O', 'X'), GameState::Draw);
        }
    }
}
