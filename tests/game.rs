use tictactoe::game::Game;
use tictactoe::game_state::GameState;

#[test]
fn move_is_not_valid_when_cell_is_set() {
    let mut game = Game::new('X', 'O');
    game.set_cell_value(0, 0, 'X');

    let is_valid = game.is_valid_move(0, 0);

    assert!(!is_valid);
}

#[test]
fn move_is_valid_when_cell_is_empty() {
    let game = Game::new('X', 'O');

    let is_valid = game.is_valid_move(0, 0);

    assert!(is_valid);
}

#[test]
fn state_is_player1_when_row1_is_player1() {
    let mut game = Game::new('X', 'O');
    game.set_cell_value(0, 0, 'X');
    game.set_cell_value(0, 1, 'X');
    game.set_cell_value(0, 2, 'X');

    let state = game.get_game_state();

    assert_eq!(state, GameState::Player1);
}

#[test]
fn state_is_player1_when_row2_is_player1() {
    let mut game = Game::new('X', 'O');
    game.set_cell_value(1, 0, 'X');
    game.set_cell_value(1, 1, 'X');
    game.set_cell_value(1, 2, 'X');

    let state = game.get_game_state();

    assert_eq!(state, GameState::Player1);
}

#[test]
fn state_is_player1_when_row3_is_player1() {
    let mut game = Game::new('X', 'O');
    game.set_cell_value(2, 0, 'X');
    game.set_cell_value(2, 1, 'X');
    game.set_cell_value(2, 2, 'X');

    let state = game.get_game_state();

    assert_eq!(state, GameState::Player1);
}

#[test]
fn state_is_player1_when_col1_is_player1() {
    let mut game = Game::new('X', 'O');
    game.set_cell_value(0, 0, 'X');
    game.set_cell_value(1, 0, 'X');
    game.set_cell_value(2, 0, 'X');

    let state = game.get_game_state();

    assert_eq!(state, GameState::Player1);
}

#[test]
fn state_is_player1_when_col2_is_player1() {
    let mut game = Game::new('X', 'O');
    game.set_cell_value(0, 1, 'X');
    game.set_cell_value(1, 1, 'X');
    game.set_cell_value(2, 1, 'X');

    let state = game.get_game_state();

    assert_eq!(state, GameState::Player1);
}

#[test]
fn state_is_player1_when_col3_is_player1() {
    let mut game = Game::new('X', 'O');
    game.set_cell_value(0, 2, 'X');
    game.set_cell_value(1, 2, 'X');
    game.set_cell_value(2, 2, 'X');

    let state = game.get_game_state();

    assert_eq!(state, GameState::Player1);
}

#[test]
fn state_is_player1_when_diag1_is_player1() {
    let mut game = Game::new('X', 'O');
    game.set_cell_value(0, 0, 'X');
    game.set_cell_value(1, 1, 'X');
    game.set_cell_value(2, 2, 'X');

    let state = game.get_game_state();

    assert_eq!(state, GameState::Player1);
}

#[test]
fn state_is_player1_when_diag2_is_player1() {
    let mut game = Game::new('X', 'O');
    game.set_cell_value(0, 2, 'X');
    game.set_cell_value(1, 1, 'X');
    game.set_cell_value(2, 0, 'X');

    let state = game.get_game_state();

    assert_eq!(state, GameState::Player1);
}

#[test]
fn state_is_player1_when_win_on_last_move() {
    let mut game = Game::new('X', 'O');

    game.set_cell_value(0, 0, 'X');
    game.set_cell_value(0, 1, 'O');
    game.set_cell_value(0, 2, 'O');

    game.set_cell_value(1, 0, 'X');
    game.set_cell_value(1, 1, 'X');
    game.set_cell_value(1, 2, 'O');

    game.set_cell_value(2, 0, 'O');
    game.set_cell_value(2, 1, 'O');
    game.set_cell_value(2, 2, 'X');

    let state = game.get_game_state();

    assert_eq!(state, GameState::Player1);
}

#[test]
fn state_is_player2_when_row1_is_player2() {
    let mut game = Game::new('X', 'O');
    game.set_cell_value(0, 0, 'O');
    game.set_cell_value(0, 1, 'O');
    game.set_cell_value(0, 2, 'O');

    let state = game.get_game_state();

    assert_eq!(state, GameState::Player2);
}

#[test]
fn state_is_player2_when_row2_is_player2() {
    let mut game = Game::new('X', 'O');
    game.set_cell_value(1, 0, 'O');
    game.set_cell_value(1, 1, 'O');
    game.set_cell_value(1, 2, 'O');

    let state = game.get_game_state();

    assert_eq!(state, GameState::Player2);
}

#[test]
fn state_is_player2_when_row3_is_player2() {
    let mut game = Game::new('X', 'O');
    game.set_cell_value(2, 0, 'O');
    game.set_cell_value(2, 1, 'O');
    game.set_cell_value(2, 2, 'O');

    let state = game.get_game_state();

    assert_eq!(state, GameState::Player2);
}

#[test]
fn state_is_player2_when_col1_is_player2() {
    let mut game = Game::new('X', 'O');
    game.set_cell_value(0, 0, 'O');
    game.set_cell_value(1, 0, 'O');
    game.set_cell_value(2, 0, 'O');

    let state = game.get_game_state();

    assert_eq!(state, GameState::Player2);
}

#[test]
fn state_is_player2_when_col2_is_player2() {
    let mut game = Game::new('X', 'O');
    game.set_cell_value(0, 1, 'O');
    game.set_cell_value(1, 1, 'O');
    game.set_cell_value(2, 1, 'O');

    let state = game.get_game_state();

    assert_eq!(state, GameState::Player2);
}

#[test]
fn state_is_player2_when_col3_is_player2() {
    let mut game = Game::new('X', 'O');
    game.set_cell_value(0, 2, 'O');
    game.set_cell_value(1, 2, 'O');
    game.set_cell_value(2, 2, 'O');

    let state = game.get_game_state();

    assert_eq!(state, GameState::Player2);
}

#[test]
fn state_is_player2_when_diag1_is_player2() {
    let mut game = Game::new('X', 'O');
    game.set_cell_value(0, 0, 'O');
    game.set_cell_value(1, 1, 'O');
    game.set_cell_value(2, 2, 'O');

    let state = game.get_game_state();

    assert_eq!(state, GameState::Player2);
}

#[test]
fn state_is_player2_when_diag2_is_player2() {
    let mut game = Game::new('X', 'O');
    game.set_cell_value(0, 2, 'O');
    game.set_cell_value(1, 1, 'O');
    game.set_cell_value(2, 0, 'O');

    let state = game.get_game_state();

    assert_eq!(state, GameState::Player2);
}

#[test]
fn state_is_player2_when_win_on_last_move() {
    let mut game = Game::new('X', 'O');
    game.set_cell_value(0, 0, 'O');
    game.set_cell_value(0, 1, 'X');
    game.set_cell_value(0, 2, 'X');

    game.set_cell_value(1, 0, 'O');
    game.set_cell_value(1, 1, 'O');
    game.set_cell_value(1, 2, 'X');

    game.set_cell_value(2, 0, 'X');
    game.set_cell_value(2, 1, 'X');
    game.set_cell_value(2, 2, 'O');

    let state = game.get_game_state();

    assert_eq!(state, GameState::Player2);
}

#[test]
fn state_is_draw_when_board_is_full() {
    let mut game = Game::new('X', 'O');
    game.set_cell_value(0, 0, 'X');
    game.set_cell_value(0, 1, 'X');
    game.set_cell_value(0, 2, 'O');

    game.set_cell_value(1, 0, 'O');
    game.set_cell_value(1, 1, 'O');
    game.set_cell_value(1, 2, 'X');

    game.set_cell_value(2, 0, 'X');
    game.set_cell_value(2, 1, 'O');
    game.set_cell_value(2, 2, 'X');

    let state = game.get_game_state();

    assert_eq!(state, GameState::Draw);
}

#[test]
fn state_is_inprogress_when_board_is_empty() {
    let game = Game::new('X', 'O');
    let state = game.get_game_state();

    assert_eq!(state, GameState::InProgress);
}
