use tictactoe::ai::get_best_move;
use tictactoe::game::Game;

#[test]
fn best_move_is_winning_move_on_row() {
    let mut game = Game::new('X', 'O');
    game.set_cell_value(1, 0, 'X');
    game.set_cell_value(0, 0, 'O');
    game.set_cell_value(2, 0, 'X');
    game.set_cell_value(0, 1, 'O');
    game.set_cell_value(1, 1, 'X');

    let best_move = get_best_move(&game, 'O', 'X');
    assert_eq!(best_move.row, 0);
    assert_eq!(best_move.col, 2);
}

#[test]
fn best_move_is_winning_move_on_col() {
    let mut game = Game::new('X', 'O');
    game.set_cell_value(1, 1, 'X');
    game.set_cell_value(0, 0, 'O');
    game.set_cell_value(1, 2, 'X');
    game.set_cell_value(1, 0, 'O');
    game.set_cell_value(0, 1, 'X');

    let best_move = get_best_move(&game, 'O', 'X');
    assert_eq!(best_move.row, 2);
    assert_eq!(best_move.col, 0);
}

#[test]
fn best_move_is_winning_mov_on_diag() {
    let mut game = Game::new('X', 'O');
    game.set_cell_value(0, 1, 'X');
    game.set_cell_value(0, 0, 'O');
    game.set_cell_value(0, 2, 'X');
    game.set_cell_value(1, 0, 'O');
    game.set_cell_value(2, 0, 'X');
    game.set_cell_value(1, 1, 'O');
    game.set_cell_value(1, 2, 'X');

    let best_move = get_best_move(&game, 'O', 'X');

    assert_eq!(best_move.row, 2);
    assert_eq!(best_move.col, 2);
}

#[test]
fn best_move_prevents_other_player_win() {
    let mut game = Game::new('X', 'O');
    game.set_cell_value(0, 0, 'X');
    game.set_cell_value(0, 1, 'X');

    let best_move = get_best_move(&game, 'O', 'X');

    assert_eq!(best_move.row, 0);
    assert_eq!(best_move.col, 2);
}
