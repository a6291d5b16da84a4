//! The amazon: queen and knight in one piece.

use vstd::prelude::*;
use crate::board::{on_board, Board, Color, Placement, Square};
use crate::pieces::{
    add_leaps, knight_leap, knight_reaches, leaps_to, queen_line, queen_reaches, slide_ray,
    some_leap_to, toward,
};

verus! {

/// Namespace for the amazon's move generation.
pub struct AmazonMoves;

impl AmazonMoves {
    /// The place of a direction in the order the eight rays are walked: row
    /// by row, from the upper left to the lower right.
    pub open spec fn direction_index(dir: (int, int)) -> int {
        if dir.0 < 0 {
            dir.1 + 1
        } else if dir.0 == 0 {
            if dir.1 < 0 {
                3
            } else {
                4
            }
        } else {
            dir.1 + 6
        }
    }

    /// The place of the knight's leap from `from` to `to` among its offsets.
    pub open spec fn leap_index(from: Square, to: Square) -> int {
        let dr = to.0 - from.0;
        let dc = to.1 - from.1;
        let pair: int = if dr == -2 {
            0
        } else if dr == -1 {
            1
        } else if dr == 1 {
            2
        } else {
            3
        };
        if dc < 0 {
            2 * pair
        } else {
            2 * pair + 1
        }
    }

    /// The piece on `from` reaches `to` moving as an amazon.
    pub open spec fn reaches(grid: Placement, from: Square, to: Square) -> bool {
        grid.piece_at(from) matches Some(p) && (queen_reaches(grid, from, to, p.color)
            || knight_reaches(grid, from, to, p.color))
    }

    /// Generates the pseudo-legal amazon moves of the piece on `from`: every
    /// square reached exactly once, and nothing when `from` is empty.
    pub fn generate_moves(board: &Board, from: Square) -> (moves: Vec<Square>)
        ensures
            forall|to: Square| #[trigger]
                moves@.contains(to) <==> Self::reaches(board@.placement, from, to),
            moves@.no_duplicates(),
    {
        let mut moves = Vec::with_capacity(48);

        let piece = board.get_piece(from);
        let our_color = match piece {
            Some(p) => p.color,
            None => return moves,
        };

        Self::generate_sliding_moves(&mut moves, board, from, our_color);
        Self::generate_knight_moves(&mut moves, board, from, our_color);

        moves
    }

    /// Appends the queen-like slides in all eight directions.
    fn generate_sliding_moves(
        moves: &mut Vec<Square>,
        board: &Board,
        from: Square,
        our_color: Color,
    )
        requires
            on_board(from),
        ensures
            forall|to: Square| #[trigger]
                final(moves)@.contains(to) <==> old(moves)@.contains(to) || queen_reaches(
                    board@.placement,
                    from,
                    to,
                    our_color,
                ),
            old(moves)@.no_duplicates() && (forall|to: Square| #[trigger]
                old(moves)@.contains(to) ==> !queen_line(from, to))
                ==> final(moves)@.no_duplicates(),
    {
        let directions: [(i8, i8); 8] = [
            (-1, -1),
            (-1, 0),
            (-1, 1),
            (0, -1),
            (0, 1),
            (1, -1),
            (1, 0),
            (1, 1),
        ];
        let ghost fresh = old(moves)@.no_duplicates() && (forall|to: Square| #[trigger]
            old(moves)@.contains(to) ==> !queen_line(from, to));

        for i in 0..8
            invariant
                on_board(from),
                directions@ =~= seq![
                    (-1i8, -1i8),
                    (-1i8, 0i8),
                    (-1i8, 1i8),
                    (0i8, -1i8),
                    (0i8, 1i8),
                    (1i8, -1i8),
                    (1i8, 0i8),
                    (1i8, 1i8),
                ],
                fresh ==> moves@.no_duplicates(),
                fresh ==> forall|to: Square| #[trigger]
                    old(moves)@.contains(to) ==> !queen_line(from, to),
                forall|to: Square| #[trigger]
                    moves@.contains(to) <==> old(moves)@.contains(to) || (queen_reaches(
                        board@.placement,
                        from,
                        to,
                        our_color,
                    ) && Self::direction_index(toward(from, to)) < i),
        {
            let (dr, dc) = directions[i];
            slide_ray(moves, board, from, our_color, dr, dc);
        }
    }

    /// Appends the knight's eight leaps.
    fn generate_knight_moves(
        moves: &mut Vec<Square>,
        board: &Board,
        from: Square,
        our_color: Color,
    )
        requires
            on_board(from),
        ensures
            forall|to: Square| #[trigger]
                final(moves)@.contains(to) <==> old(moves)@.contains(to) || knight_reaches(
                    board@.placement,
                    from,
                    to,
                    our_color,
                ),
            old(moves)@.no_duplicates() && (forall|to: Square| #[trigger]
                old(moves)@.contains(to) ==> !knight_leap(from, to))
                ==> final(moves)@.no_duplicates(),
    {
        let knight_offsets: [(i8, i8); 8] = [
            (-2, -1),
            (-2, 1),
            (-1, -2),
            (-1, 2),
            (1, -2),
            (1, 2),
            (2, -1),
            (2, 1),
        ];
        add_leaps(moves, board, from, our_color, &knight_offsets);
        proof {
            let grid = board@.placement;
            let offsets = knight_offsets@;
            assert(offsets =~= seq![
                (-2i8, -1i8),
                (-2i8, 1i8),
                (-1i8, -2i8),
                (-1i8, 2i8),
                (1i8, -2i8),
                (1i8, 2i8),
                (2i8, -1i8),
                (2i8, 1i8),
            ]);
            assert forall|to: Square|
                knight_reaches(grid, from, to, our_color) implies some_leap_to(
                grid,
                from,
                our_color,
                offsets,
                to,
            ) by {
                let j = Self::leap_index(from, to);
                assert(leaps_to(grid, from, our_color, offsets[j], to));
            }
        }
    }
}

} // verus!
