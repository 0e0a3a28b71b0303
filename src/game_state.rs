//! The outcome of a position and its presentation.
use vstd::prelude::*;

verus! {

/// The classification of a position.
#[derive(Clone, Copy, Debug, PartialEq, Eq, Structural)]
pub enum GameState {
    InProgress,
    Draw,
    Player1,
    Player2,
}

impl GameState {
    /// Whether the state is a win for one of the two players.
    pub open spec fn spec_is_win(self) -> bool {
        self is Player1 || self is Player2
    }

    /// The state that a winning line of `winning_symbol` stands for: a win for
    /// the player whose mark it is (the first player where both marks are the
    /// same), and no win for a mark that is neither.
    pub open spec fn spec_from_winner(winning_symbol: char, player1_symbol: char, player2_symbol: char) -> GameState {
        if winning_symbol == player1_symbol {
            GameState::Player1
        } else if winning_symbol == player2_symbol {
            GameState::Player2
        } else {
            GameState::InProgress
        }
    }

    /// The state that a winning line of `winning_symbol` stands for.
    pub fn from_winner(winning_symbol: char, player1_symbol: char, player2_symbol: char) -> (r: GameState)
        ensures
            r == GameState::spec_from_winner(winning_symbol, player1_symbol, player2_symbol),
    {
        if winning_symbol == player1_symbol {
            return GameState::Player1;
        } else if winning_symbol == player2_symbol {
            return GameState::Player2;
        }
        GameState::InProgress
    }

    #[verifier::when_used_as_spec(spec_is_win)]
    /// Whether the state is a win for one of the two players.
    pub fn is_win(self) -> (r: bool)
        ensures
            r == self.spec_is_win(),
    {
        match self {
            GameState::Player1 => true,
            GameState::Player2 => true,
            _ => false,
        }
    }
}

/// Whether the game has ended: a draw or a win.
pub open spec fn spec_game_over(game_state: GameState) -> bool {
    !(game_state is InProgress)
}

/// The message shown for a state.
pub open spec fn spec_game_over_message(game_state: GameState) -> Seq<char> {
    match game_state {
        GameState::InProgress => "InProgress"@,
        GameState::Draw => "Draw"@,
        GameState::Player1 => "Player 1 wins!"@,
        GameState::Player2 => "Player 2 wins!"@,
    }
}

/// The message shown for a state.
pub fn game_over_message(game_state: GameState) -> (r: String)
    ensures
        r@ == spec_game_over_message(game_state),
{
    match game_state {
        GameState::InProgress => String::from_str("InProgress"),
        GameState::Draw => String::from_str("Draw"),
        GameState::Player1 => String::from_str("Player 1 wins!"),
        GameState::Player2 => String::from_str("Player 2 wins!"),
    }
}

/// Whether the game has ended: a draw or a win.
pub fn is_gave_over(game_state: GameState) -> (r: bool)
    ensures
        r == spec_game_over(game_state),
{
    match game_state {
        GameState::InProgress => false,
        GameState::Draw => true,
        GameState::Player1 => true,
        GameState::Player2 => true,
    }
}

} // verus!
