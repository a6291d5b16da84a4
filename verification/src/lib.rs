//! Move generation, legality and search for small fairy-chess endgames:
//! a king and a compound piece (an amazon, or a queen-knight-camel) against
//! a king, with or without a rook.
//!
//! * [`board`] holds the board, its pieces and moves, the legality engine,
//!   and the mathematical position that all contracts speak about.
//! * [`pieces`] holds the movement primitives and one move generator for
//!   each kind of piece.
//! * [`evaluation`] is a small evaluation for one side; [`search`] holds
//!   the evaluation that the search uses, the move ordering, and negamax
//!   with alpha-beta pruning and quiescence search.
//! * [`fen`] reads and writes positions as text; [`uci`] answers the
//!   line-based control protocol; [`console`] reads what a player enters.
//! * [`squares`] and [`text`] hold what the others share: sums over the
//!   squares of the board, and words, numbers and letters in plain text.

pub mod board;
pub mod console;
pub mod evaluation;
pub mod fen;
pub mod pieces;
pub mod search;
pub mod squares;
pub mod text;
pub mod uci;
