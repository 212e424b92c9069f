//! A chess position seen from the side to move, with pseudo-legal move
//! generation, material scoring and the notation of moves.
//!
//! - [`square`] and [`square_set`]: the squares of the board and sets of them.
//! - [`rays`]: what a sliding piece sees along ranks, files and diagonals.
//! - [`position`]: the mathematical model of a position and of its rules.
//! - [`chess_board`]: the board itself, whose functions are stated over the model.
//! - [`chess_move`]: moves and how they are written and read.
//! - [`game`]: turns, the end of a game, and the acceptance of typed moves.
//! - [`laws`]: what holds of every position.
//! - [`render`] and [`color`]: the text of a board for a colour terminal.

pub mod chess_board;
pub mod chess_move;
pub mod color;
pub mod game;
pub mod laws;
pub mod position;
pub mod rays;
pub mod render;
pub mod square;
pub mod square_set;
