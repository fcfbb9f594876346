//! Rules engine of a falling-block puzzle game: pieces, rotation, collision,
//! gravity, landing and line clearing on a 20 x 10 board.
pub mod board;
pub mod game;
pub mod piece;
