pub mod board;
pub mod grid;
pub mod moves;
pub mod pieces;
pub mod search;

pub use board::ChessBoard;
pub use grid::{MoveMask, Occupant};
pub use pieces::{BoardPosition, ChessPiece, Color, Direction};
pub use search::crossover;
