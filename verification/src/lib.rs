//! A minimal turn-based game engine: an environment contract (game state and
//! rules), an agent contract (a participant choosing actions), a driver that
//! plays one game to completion, and a concrete tic-tac-toe environment built
//! on two 9-bit occupancy masks.

pub mod abstract_game;
pub mod agents;
pub mod tictactoe;
