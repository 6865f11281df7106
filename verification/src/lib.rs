//! Rules of a chess game: the board, piece movement, move generation,
//! legality checking and the state changes that a move makes.

pub mod direction;
pub mod position;
pub mod moves;
pub mod pieces;
pub mod markers;
pub mod board;
pub mod game;
pub mod piece_moved;
pub mod move_generator;
pub mod single_moves;
pub mod sliding_moves;
pub mod pawn_moves;
pub mod castling_moves;
pub mod legality;
pub mod checks;
pub mod preset_pieces;
pub mod setup;
pub mod removal;
pub mod promotion;
pub mod safety;
pub mod laws;
