//! The rook: slides along ranks and files.

use vstd::prelude::*;
use crate::board::{Board, Piece, Placement, Square};
use crate::pieces::{rook_reaches, slide_ray, toward};

verus! {

/// Namespace for the rook's move generation.
pub struct RookMoves;

impl RookMoves {
    /// The place of a rank or file direction in the order the rays are
    /// walked: up, down, left, right.
    pub open spec fn direction_index(dir: (int, int)) -> int {
        if dir.0 < 0 {
            0
        } else if dir.0 > 0 {
            1
        } else if dir.1 < 0 {
            2
        } else {
            3
        }
    }

    /// The piece on `from` reaches `to` moving as a rook.
    pub open spec fn reaches(grid: Placement, from: Square, to: Square) -> bool {
        grid.piece_at(from) matches Some(p) && rook_reaches(grid, from, to, p.color)
    }

    /// Generates the pseudo-legal rook moves of the piece on `from`: every
    /// square reached exactly once, and nothing when `from` is empty.
    pub fn generate_moves(board: &Board, from: Square) -> (moves: Vec<Square>)
        ensures
            forall|to: Square| #[trigger]
                moves@.contains(to) <==> Self::reaches(board@.placement, from, to),
            moves@.no_duplicates(),
    {
        let mut moves = Vec::with_capacity(14);

        let piece = board.get_piece(from);
        let our_color = match piece {
            Some(p) => p.color,
            None => return moves,
        };

        let directions: [(i8, i8); 4] = [(-1, 0), (1, 0), (0, -1), (0, 1)];

        for i in 0..4
            invariant
                board@.placement.piece_at(from) == piece,
                piece == Some(Piece { piece_type: piece.unwrap().piece_type, color: our_color }),
                directions@ =~= seq![(-1i8, 0i8), (1i8, 0i8), (0i8, -1i8), (0i8, 1i8)],
                moves@.no_duplicates(),
                forall|to: Square| #[trigger]
                    moves@.contains(to) <==> rook_reaches(board@.placement, from, to, our_color)
                        && Self::direction_index(toward(from, to)) < i,
        {
            let (dr, dc) = directions[i];
            slide_ray(&mut moves, board, from, our_color, dr, dc);
        }
        moves
    }
}

} // verus!
