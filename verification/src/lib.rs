//! A small board-game library: a rectangular grid of chess pieces with
//! bounds-checked placement and relocation, and a one-character-per-square
//! textual encoding for whole boards.
//!
//! The piece alphabet is `.` for an empty square, `k q r b n p` for the
//! black King, Queen, Rook, Bishop, Knight and Pawn, and the uppercase
//! letters for the white equivalents.
pub mod board;
pub mod chess;
