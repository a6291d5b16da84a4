//! The king: one step in any direction.

use vstd::prelude::*;
use crate::board::{Board, Placement, Square};
use crate::pieces::{add_leaps, king_reaches, leaps_to, some_leap_to};

verus! {

/// Namespace for the king's move generation.
pub struct KingMoves;

impl KingMoves {
    /// The place of the step from `from` to `to` among the king's eight
    /// steps, which go row by row from the upper left to the lower right.
    pub open spec fn step_index(from: Square, to: Square) -> int {
        let dr = to.0 - from.0;
        let dc = to.1 - from.1;
        if dr < 0 {
            dc + 1
        } else if dr == 0 {
            if dc < 0 {
                3
            } else {
                4
            }
        } else {
            dc + 6
        }
    }

    /// The piece on `from` reaches `to` moving as a king.
    pub open spec fn reaches(grid: Placement, from: Square, to: Square) -> bool {
        grid.piece_at(from) matches Some(p) && king_reaches(grid, from, to, p.color)
    }

    /// Generates the pseudo-legal king moves of the piece on `from`: every
    /// adjacent square on the board that holds no piece of its own colour,
    /// exactly once, and nothing when `from` is empty.
    pub fn generate_moves(board: &Board, from: Square) -> (moves: Vec<Square>)
        ensures
            forall|to: Square| #[trigger]
                moves@.contains(to) <==> Self::reaches(board@.placement, from, to),
            moves@.no_duplicates(),
    {
        let mut moves = Vec::new();

        let piece = board.get_piece(from);
        let our_color = match piece {
            Some(p) => p.color,
            None => return moves,
        };

        let directions: [(i8, i8); 8] = [
            (-1, -1),
            (-1, 0),
            (-1, 1),
            (0, -1),
            (0, 1),
            (1, -1),
            (1, 0),
            (1, 1),
        ];
        add_leaps(&mut moves, board, from, our_color, &directions);
        proof {
            let grid = board@.placement;
            let offsets = directions@;
            assert(offsets =~= seq![
                (-1i8, -1i8),
                (-1i8, 0i8),
                (-1i8, 1i8),
                (0i8, -1i8),
                (0i8, 1i8),
                (1i8, -1i8),
                (1i8, 0i8),
                (1i8, 1i8),
            ]);
            assert forall|to: Square| king_reaches(grid, from, to, our_color) implies some_leap_to(
                grid,
                from,
                our_color,
                offsets,
                to,
            ) by {
                let j = Self::step_index(from, to);
                assert(leaps_to(grid, from, our_color, offsets[j], to));
            }
        }

        moves
    }
}

} // verus!
