//! A verified Tetris game-simulation core: shapes, the board, the falling
//! piece, and the tick/lock/spawn/hold state machine, with contracts for
//! movement legality, rotation, line clearing, and scoring.

pub mod board;
pub mod game_state;
pub mod piece;
pub mod shape;
