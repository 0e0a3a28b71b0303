//! A perfect-play engine for noughts and crosses: a board with its
//! classification of positions, and an alpha-beta search for the best move.
pub mod ai;
pub mod game;
pub mod game_state;
pub mod laws;
