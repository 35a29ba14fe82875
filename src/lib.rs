//! A checkers (draughts) rules engine: legal-move generation with forced
//! capture and multi-jump chains, and move application, on a 32-square board.
pub mod piece;
pub mod rules;
pub mod board;
pub mod soundness;
pub mod laws;

pub use board::Board;
pub use piece::{Direction, PieceColor, PieceData};
pub use rules::Move;
