//! Exhaustive solver for 3×3 tic-tac-toe positions.

pub mod bitboard;
pub mod board;
pub mod error;
pub mod minimax;
pub mod rules;
pub mod solver;
pub mod text;
pub mod tree;
