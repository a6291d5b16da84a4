//! A small evaluation for mating endgames: terminal positions first, then the
//! enemy king's distance from the centre, check, and the closeness of the
//! two kings.

use vstd::prelude::*;
use crate::board::{on_board, Board, Color, Piece, PieceType, Placement, Square};
use crate::pieces::distance;

verus! {

/// The score of a position in which the enemy is checkmated.
pub const CHECKMATE_SCORE: i32 = 100_000;

/// The bonus for giving check.
pub const CHECK_BONUS: i32 = 50;

/// The weight of each step that the kings are closer than seven apart.
pub const KING_PROXIMITY_WEIGHT: i32 = 10;

/// The weight of the enemy king's table value.
pub const ENEMY_KING_WEIGHT: i32 = 100;

/// How good a square is for the attacker when the enemy king stands on it:
/// 0 in the centre, rising to 3 on the edge and 4 in the corners.
pub const ENEMY_KING_PST: [[i32; 8]; 8] = [
    [4, 3, 3, 3, 3, 3, 3, 4],
    [3, 2, 2, 2, 2, 2, 2, 3],
    [3, 2, 1, 1, 1, 1, 2, 3],
    [3, 2, 1, 0, 0, 1, 2, 3],
    [3, 2, 1, 0, 0, 1, 2, 3],
    [3, 2, 1, 1, 1, 1, 2, 3],
    [3, 2, 2, 2, 2, 2, 2, 3],
    [4, 3, 3, 3, 3, 3, 3, 4],
];

/// How many rows (or columns) a coordinate is away from the nearer edge.
pub open spec fn edge_gap(x: int) -> int {
    if x <= 7 - x {
        x
    } else {
        7 - x
    }
}

/// The table value of a square for the enemy king: 4 in a corner, otherwise
/// 3 less the distance to the nearest edge. The table is symmetric about
/// both axes.
pub open spec fn enemy_king_table(sq: Square) -> int {
    let rows = edge_gap(sq.0 as int);
    let cols = edge_gap(sq.1 as int);
    if rows == 0 && cols == 0 {
        4
    } else if rows <= cols {
        3 - rows
    } else {
        3 - cols
    }
}

/// The term for the enemy king's square.
pub open spec fn enemy_king_position(sq: Square) -> int {
    enemy_king_table(sq) * ENEMY_KING_WEIGHT
}

/// The term for the closeness of the kings: the closer, the higher.
pub open spec fn king_proximity(our_king: Square, enemy_king: Square) -> int {
    (7 - distance(our_king, enemy_king)) * KING_PROXIMITY_WEIGHT
}

/// The sum of the heuristic terms for `for_color`: the enemy king's square,
/// the bonus for giving check, and the closeness of the kings. A term whose
/// king is missing counts nothing.
pub open spec fn heuristic_score(grid: Placement, for_color: Color) -> int {
    let enemy = for_color.other();
    let king_term: int = match grid.king_square(enemy) {
        Some(sq) => enemy_king_position(sq),
        None => 0,
    };
    let check_term: int = if grid.in_check(enemy) {
        CHECK_BONUS as int
    } else {
        0
    };
    let proximity_term: int = match (grid.king_square(for_color), grid.king_square(enemy)) {
        (Some(ours), Some(theirs)) => king_proximity(ours, theirs),
        _ => 0,
    };
    king_term + check_term + proximity_term
}

/// The score of a placement for `for_color`: the win score when the enemy is
/// checkmated, 0 when the enemy is stalemated, the negated win score when
/// `for_color` is checkmated, 0 when it is stalemated, in this order, and
/// otherwise the sum of the heuristic terms.
pub open spec fn score_for(grid: Placement, for_color: Color) -> int {
    let enemy = for_color.other();
    if grid.checkmate(enemy) {
        CHECKMATE_SCORE as int
    } else if grid.stalemate(enemy) {
        0
    } else if grid.checkmate(for_color) {
        -CHECKMATE_SCORE
    } else if grid.stalemate(for_color) {
        0
    } else {
        heuristic_score(grid, for_color)
    }
}

/// No sum of heuristic terms reaches the checkmate score: only a checkmate
/// evaluates to it, or to its negation.
pub proof fn lemma_heuristic_below_checkmate(grid: Placement, for_color: Color)
    ensures
        0 <= heuristic_score(grid, for_color) <= 520,
        -CHECKMATE_SCORE < heuristic_score(grid, for_color) < CHECKMATE_SCORE,
        score_for(grid, for_color) == CHECKMATE_SCORE <==> grid.checkmate(for_color.other()),
        score_for(grid, for_color) == -CHECKMATE_SCORE <==> !grid.checkmate(for_color.other())
            && !grid.stalemate(for_color.other()) && grid.checkmate(for_color),
{
    grid.lemma_located(Piece { piece_type: PieceType::King, color: for_color });
    grid.lemma_located(Piece { piece_type: PieceType::King, color: for_color.other() });
}

/// Chebyshev distance between two squares.
pub fn chebyshev_distance(a: Square, b: Square) -> (d: i32)
    ensures
        d == distance(a, b),
{
    let row_diff: i32 = if a.0 >= b.0 {
        (a.0 - b.0) as i32
    } else {
        (b.0 - a.0) as i32
    };
    let col_diff: i32 = if a.1 >= b.1 {
        (a.1 - b.1) as i32
    } else {
        (b.1 - a.1) as i32
    };
    if row_diff >= col_diff {
        row_diff
    } else {
        col_diff
    }
}

/// Evaluates the position for `for_color`: positive is good for it. Terminal
/// positions are recognised first; the board is left as it was found.
pub fn evaluate(board: &mut Board, for_color: Color) -> (score: i32)
    ensures
        final(board)@ == old(board)@,
        score == score_for(old(board)@.placement, for_color),
        score == CHECKMATE_SCORE <==> old(board)@.checkmate(for_color.other()),
        -CHECKMATE_SCORE <= score <= CHECKMATE_SCORE,
{
    let enemy_color = for_color.opposite();
    proof {
        let grid = board@.placement;
        lemma_heuristic_below_checkmate(grid, for_color);
        grid.lemma_located(Piece { piece_type: PieceType::King, color: for_color });
        grid.lemma_located(Piece { piece_type: PieceType::King, color: enemy_color });
    }

    if board.is_checkmate(enemy_color) {
        return CHECKMATE_SCORE;
    }
    if board.is_stalemate(enemy_color) {
        return 0;
    }
    if board.is_checkmate(for_color) {
        return -CHECKMATE_SCORE;
    }
    if board.is_stalemate(for_color) {
        return 0;
    }

    let mut score: i32 = 0;

    if let Some(enemy_king_sq) = board.find_king(enemy_color) {
        score += evaluate_enemy_king_position(enemy_king_sq);
    }

    if board.is_in_check(enemy_color) {
        score += CHECK_BONUS;
    }

    if let Some(our_king_sq) = board.find_king(for_color) {
        if let Some(enemy_king_sq) = board.find_king(enemy_color) {
            score += evaluate_king_proximity(our_king_sq, enemy_king_sq);
        }
    }

    score
}

/// Looks up the term for the enemy king's square.
fn evaluate_enemy_king_position(square: Square) -> (score: i32)
    requires
        on_board(square),
    ensures
        score == enemy_king_position(square),
{
    let (row, col) = square;
    ENEMY_KING_PST[row as usize][col as usize] * ENEMY_KING_WEIGHT
}

/// Computes the term for the closeness of the kings.
fn evaluate_king_proximity(our_king: Square, enemy_king: Square) -> (score: i32)
    ensures
        score == king_proximity(our_king, enemy_king),
{
    let distance = chebyshev_distance(our_king, enemy_king);
    (7 - distance) * KING_PROXIMITY_WEIGHT
}

} // verus!
