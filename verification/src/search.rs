//! Search for the best move: negamax with alpha-beta pruning, captures
//! first, and a quiescence search at the horizon; and the evaluation that
//! the search rests on.

use vstd::prelude::*;
use crate::board::{
    lemma_push_contains, on_board, square_index, square_of_index, Board, Color, Move, Piece,
    PieceType, Placement, Position, Square,
};
use crate::evaluation::{chebyshev_distance, edge_gap, enemy_king_table, ENEMY_KING_PST};
use crate::pieces::distance;
use crate::squares::{
    count_squares, indicator, lemma_square_index_round_trip, lemma_sum_add, lemma_sum_bounds,
    lemma_sum_differs_at_two, lemma_sum_monotone, lemma_sum_scaled, sum_squares,
};

verus! {

/// The score of a position in which the enemy is checkmated.
pub const CHECKMATE_SCORE: i32 = 100_000;

/// A score beyond every score that the search returns.
pub const INFINITY: i32 = 2147483647;

/// The greatest search depth: the depth at which the score of a mate,
/// which is lowered by the remaining depth, still lies above the negated
/// infinity.
pub const MAX_DEPTH: i32 = 2147383746;

/// Material value of an amazon, and of a QNC.
pub const AMAZON_VALUE: i32 = 1500;

/// Material value of a rook.
pub const ROOK_VALUE: i32 = 500;

/// The value that stands for a king when moves are ordered.
pub const KING_ORDERING_VALUE: i32 = 10000;

/// The score that puts every capture before every quiet move.
pub const CAPTURE_BASE: i32 = 10000;

/// The bonus for giving check.
pub const CHECK_BONUS: i32 = 30;

/// The weight of each step that the kings are closer than seven apart.
pub const KING_PROXIMITY_WEIGHT: i32 = 5;

/// The weight of the enemy king's table value.
pub const ENEMY_KING_WEIGHT: i32 = 50;

/// The weight of a compound piece's table value.
pub const AMAZON_CENTER_BONUS: i32 = 20;

/// The flat part of the penalty for a piece under attack.
pub const PIECE_SAFETY_PENALTY: i32 = 50;

/// The weight of each step that the compound piece is closer than seven to the
/// enemy king.
pub const TROPISM_WEIGHT: i32 = 15;

/// The bonus for each legal move.
pub const MOBILITY_WEIGHT: i32 = 3;

/// The bonus for a king that cuts the enemy king off.
pub const KING_CUTOFF_BONUS: i32 = 40;

/// The bonus for an enemy rook without any open square.
pub const ROOK_TRAPPED_BONUS: i32 = 30;

/// The weight of the mating-net term, in tenths.
pub const MATING_NET_WEIGHT: i32 = 25;

/// How good a square is for a compound piece, an amazon or a QNC: the
/// centre is best.
pub const AMAZON_PST: [[i32; 8]; 8] = [
    [0, 1, 1, 2, 2, 1, 1, 0],
    [1, 2, 3, 3, 3, 3, 2, 1],
    [1, 3, 4, 5, 5, 4, 3, 1],
    [2, 3, 5, 6, 6, 5, 3, 2],
    [2, 3, 5, 6, 6, 5, 3, 2],
    [1, 3, 4, 5, 5, 4, 3, 1],
    [1, 2, 3, 3, 3, 3, 2, 1],
    [0, 1, 1, 2, 2, 1, 1, 0],
];

/// The table value of a square for a compound piece. The table is symmetric about
/// both axes and both diagonals, so the value depends only on how far the
/// square is from the nearer edge in each direction: `near` is the smaller
/// and `far` the greater of the two gaps.
pub open spec fn amazon_table(sq: Square) -> int {
    let rows = edge_gap(sq.0 as int);
    let cols = edge_gap(sq.1 as int);
    let near = if rows <= cols {
        rows
    } else {
        cols
    };
    let far = if rows <= cols {
        cols
    } else {
        rows
    };
    if near == 0 {
        if far == 0 {
            0
        } else if far <= 2 {
            1
        } else {
            2
        }
    } else if near == 1 {
        if far == 1 {
            2
        } else {
            3
        }
    } else if near == 2 {
        if far == 2 {
            4
        } else {
            5
        }
    } else {
        6
    }
}

/// The material value of a kind of piece. The king has none.
pub open spec fn material_value(piece_type: PieceType) -> int {
    match piece_type {
        PieceType::Amazon => AMAZON_VALUE as int,
        PieceType::QNC => AMAZON_VALUE as int,
        PieceType::Rook => ROOK_VALUE as int,
        PieceType::King => 0,
    }
}

/// What each square adds to the material balance of `color`.
pub open spec fn material_term(grid: Placement, color: Color) -> spec_fn(Square) -> int {
    |sq: Square|
        match grid.piece_at(sq) {
            None => 0,
            Some(p) => if p.color == color {
                material_value(p.piece_type)
            } else {
                -material_value(p.piece_type)
            },
        }
}

/// The material balance: the value of the pieces of `color` less the value
/// of the others.
pub open spec fn material(grid: Placement, color: Color) -> int {
    sum_squares(material_term(grid, color), 64)
}

/// What each square adds to the safety term of `color`: a penalty of a
/// tenth of its value and a flat part for each piece of `color`, the king
/// apart, that the enemy attacks.
pub open spec fn safety_term(grid: Placement, color: Color) -> spec_fn(Square) -> int {
    |sq: Square|
        match grid.piece_at(sq) {
            None => 0,
            Some(p) => if p.color == color && p.piece_type != PieceType::King && grid.attacked(
                sq,
                color.other(),
            ) {
                -(material_value(p.piece_type) / 10 + PIECE_SAFETY_PENALTY)
            } else {
                0
            },
        }
}

/// The safety term: the penalties for the attacked pieces of `color`.
pub open spec fn piece_safety(grid: Placement, color: Color) -> int {
    sum_squares(safety_term(grid, color), 64)
}

/// What each square adds to the position term of the compound pieces, as
/// `color` sees it.
pub open spec fn amazon_position_term(grid: Placement, color: Color) -> spec_fn(Square) -> int {
    |sq: Square|
        match grid.piece_at(sq) {
            None => 0,
            Some(p) => if p.piece_type.compound() {
                if p.color == color {
                    amazon_table(sq) * AMAZON_CENTER_BONUS
                } else {
                    -(amazon_table(sq) * AMAZON_CENTER_BONUS)
                }
            } else {
                0
            },
        }
}

/// The position term of the compound pieces: the table values of those of `color`
/// less those of the others.
pub open spec fn amazon_position(grid: Placement, color: Color) -> int {
    sum_squares(amazon_position_term(grid, color), 64)
}

/// The term for the enemy king's square.
pub open spec fn enemy_king_position(sq: Square) -> int {
    enemy_king_table(sq) * ENEMY_KING_WEIGHT
}

/// The term for the closeness of the kings: the closer, the higher.
pub open spec fn king_proximity(our_king: Square, enemy_king: Square) -> int {
    (7 - distance(our_king, enemy_king)) * KING_PROXIMITY_WEIGHT
}

/// The compound pieces of `color`: its amazons and QNCs.
pub open spec fn compound_of(color: Color) -> spec_fn(Piece) -> bool {
    |p: Piece| p.color == color && p.piece_type.compound()
}

/// Where the first compound piece of `color` stands.
pub open spec fn amazon_square(grid: Placement, color: Color) -> Option<Square> {
    grid.locate_where(compound_of(color))
}

/// Where the first rook of `color` stands.
pub open spec fn rook_square(grid: Placement, color: Color) -> Option<Square> {
    grid.locate(Piece { piece_type: PieceType::Rook, color })
}

/// The tropism term: the closer the first compound piece of `color` is to the enemy king,
/// the higher. Nothing when either is missing.
pub open spec fn amazon_tropism(grid: Placement, color: Color) -> int {
    match (amazon_square(grid, color), grid.king_square(color.other())) {
        (Some(amazon), Some(king)) => (7 - distance(amazon, king)) * TROPISM_WEIGHT,
        _ => 0,
    }
}

/// The mobility term: a bonus for each legal move, counted only when
/// `color` is the side to move.
pub open spec fn mobility(pos: Position, color: Color) -> int {
    if pos.side_to_move == color {
        pos.placement.legal_move_count(color) * MOBILITY_WEIGHT
    } else {
        0
    }
}

/// The cut-off term: a bonus when the king of `color` shares a file with the
/// enemy king and stands farther from the edge along it, the same for a
/// shared rank, and half a bonus when the kings are within two steps of
/// each other. Nothing when a king is missing.
pub open spec fn king_cutoff(grid: Placement, color: Color) -> int {
    match (grid.king_square(color), grid.king_square(color.other())) {
        (Some(ours), Some(theirs)) => {
            let file_bonus: int = if ours.1 == theirs.1 && edge_gap(ours.0 as int) > edge_gap(
                theirs.0 as int,
            ) {
                KING_CUTOFF_BONUS as int
            } else {
                0
            };
            let rank_bonus: int = if ours.0 == theirs.0 && edge_gap(ours.1 as int) > edge_gap(
                theirs.1 as int,
            ) {
                KING_CUTOFF_BONUS as int
            } else {
                0
            };
            let near_bonus: int = if distance(ours, theirs) <= 2 {
                KING_CUTOFF_BONUS / 2
            } else {
                0
            };
            file_bonus + rank_bonus + near_bonus
        },
        _ => 0,
    }
}

/// The empty squares of the rook's rank that are counted from column `col`
/// on: the count runs from the left edge, passes over the rook's own square
/// and stops at the first other piece.
pub open spec fn rank_run(grid: Placement, rook: Square, col: int) -> int
    decreases 8 - col,
{
    if col < 0 || col >= 8 {
        0
    } else if col == rook.1 {
        rank_run(grid, rook, col + 1)
    } else if grid.piece_at((rook.0, col as u8)) is None {
        1 + rank_run(grid, rook, col + 1)
    } else {
        0
    }
}

/// The empty squares of the rook's file that are counted from row `row` on:
/// the count runs from the top edge, passes over the rook's own square and
/// stops at the first other piece.
pub open spec fn file_run(grid: Placement, rook: Square, row: int) -> int
    decreases 8 - row,
{
    if row < 0 || row >= 8 {
        0
    } else if row == rook.0 {
        file_run(grid, rook, row + 1)
    } else if grid.piece_at((row as u8, rook.1)) is None {
        1 + file_run(grid, rook, row + 1)
    } else {
        0
    }
}

/// The rook-activity term: the fewer open squares the first enemy rook has
/// on its rank and file, the higher. Nothing without an enemy rook.
pub open spec fn rook_activity(grid: Placement, color: Color) -> int {
    match rook_square(grid, color.other()) {
        Some(rook) => (14 - (rank_run(grid, rook, 0) + file_run(grid, rook, 0))) * (
        ROOK_TRAPPED_BONUS / 7),
        None => 0,
    }
}

/// The distance from a square to the nearest corner.
pub open spec fn corner_distance(sq: Square) -> int {
    let a = distance(sq, (0u8, 0u8));
    let b = distance(sq, (0u8, 7u8));
    let c = distance(sq, (7u8, 0u8));
    let d = distance(sq, (7u8, 7u8));
    let ab = if a <= b {
        a
    } else {
        b
    };
    let cd = if c <= d {
        c
    } else {
        d
    };
    if ab <= cd {
        ab
    } else {
        cd
    }
}

/// The mating-net term: the nearer the enemy king is to a corner, and the
/// nearer the first compound piece and the king of `color` are to the enemy king, the
/// higher. Nothing when one of the three is missing.
pub open spec fn mating_distance(grid: Placement, color: Color) -> int {
    match (grid.king_square(color), grid.king_square(color.other()), amazon_square(grid, color)) {
        (Some(ours), Some(theirs), Some(amazon)) => mating_net(ours, theirs, amazon),
        _ => 0,
    }
}

/// How tight the net around the enemy king is: twice the steps that it is
/// closer than seven to a corner, and the steps that the compound piece and the king
/// are closer than seven to it, weighted.
pub open spec fn mating_net(our_king: Square, enemy_king: Square, amazon: Square) -> int {
    let corner_score = (7 - corner_distance(enemy_king)) * 2;
    let approach_score = 14 - distance(amazon, enemy_king) - distance(our_king, enemy_king);
    (corner_score + approach_score) * MATING_NET_WEIGHT / 10
}

/// The sum of the heuristic terms for the side to move.
pub open spec fn heuristic_score(pos: Position) -> int {
    let grid = pos.placement;
    let us = pos.side_to_move;
    let them = us.other();
    let enemy_king_term: int = match grid.king_square(them) {
        Some(sq) => enemy_king_position(sq),
        None => 0,
    };
    let check_term: int = if grid.in_check(them) {
        CHECK_BONUS as int
    } else {
        0
    };
    let proximity_term: int = match (grid.king_square(us), grid.king_square(them)) {
        (Some(ours), Some(theirs)) => king_proximity(ours, theirs),
        _ => 0,
    };
    material(grid, us) + piece_safety(grid, us) + amazon_position(grid, us) + enemy_king_term
        + check_term + proximity_term + amazon_tropism(grid, us) + mobility(pos, us) + king_cutoff(
        grid,
        us,
    ) + rook_activity(grid, us) + mating_distance(grid, us)
}

/// The static score of a position for the side to move: the win score when
/// the enemy is checkmated, 0 when the enemy is stalemated, the negated win
/// score when the side to move is checkmated, 0 when it is stalemated, in
/// this order, and otherwise the sum of the heuristic terms.
pub open spec fn static_evaluation(pos: Position) -> int {
    let grid = pos.placement;
    let us = pos.side_to_move;
    let them = us.other();
    if grid.checkmate(them) {
        CHECKMATE_SCORE as int
    } else if grid.stalemate(them) {
        0
    } else if grid.checkmate(us) {
        -CHECKMATE_SCORE
    } else if grid.stalemate(us) {
        0
    } else {
        heuristic_score(pos)
    }
}

/// The number of legal moves of a side lies between 0 and 64 times 64.
pub proof fn lemma_legal_move_count_bounds(grid: Placement, color: Color)
    ensures
        0 <= grid.legal_move_count(color) <= 4096,
{
    assert forall|from: Square| on_board(from) implies 0 <= #[trigger] grid.legal_moves_from(
        color,
    )(from) <= 64 by {
        lemma_sum_bounds(indicator(grid.legal_targets(color, from)), 0, 1, 64);
    }
    lemma_sum_bounds(grid.legal_moves_from(color), 0, 64, 64);
}

/// A run along the rook's rank counts no square twice.
pub proof fn lemma_rank_run_bounds(grid: Placement, rook: Square, col: int)
    requires
        on_board(rook),
        0 <= col <= 8,
    ensures
        0 <= rank_run(grid, rook, col) <= 8 - col - if col <= rook.1 {
            1int
        } else {
            0int
        },
    decreases 8 - col,
{
    if col < 8 {
        lemma_rank_run_bounds(grid, rook, col + 1);
    }
}

/// A run along the rook's file counts no square twice.
pub proof fn lemma_file_run_bounds(grid: Placement, rook: Square, row: int)
    requires
        on_board(rook),
        0 <= row <= 8,
    ensures
        0 <= file_run(grid, rook, row) <= 8 - row - if row <= rook.0 {
            1int
        } else {
            0int
        },
    decreases 8 - row,
{
    if row < 8 {
        lemma_file_run_bounds(grid, rook, row + 1);
    }
}

/// The range of each heuristic term.
pub proof fn lemma_heuristic_terms_bounded(pos: Position)
    ensures
        -96000 <= material(pos.placement, pos.side_to_move) <= 96000,
        -12800 <= piece_safety(pos.placement, pos.side_to_move) <= 0,
        -7680 <= amazon_position(pos.placement, pos.side_to_move) <= 7680,
        0 <= amazon_tropism(pos.placement, pos.side_to_move) <= 105,
        0 <= mobility(pos, pos.side_to_move) <= 12288,
        0 <= king_cutoff(pos.placement, pos.side_to_move) <= 100,
        0 <= rook_activity(pos.placement, pos.side_to_move) <= 56,
        0 <= mating_distance(pos.placement, pos.side_to_move) <= 70,
        pos.placement.king_square(pos.side_to_move.other()) matches Some(sq) ==> 0
            <= enemy_king_position(sq) <= 200,
        forall|a: Square, b: Square|
            on_board(a) && on_board(b) ==> 0 <= #[trigger] king_proximity(a, b) <= 35,
{
    let grid = pos.placement;
    let us = pos.side_to_move;
    let them = us.other();
    lemma_sum_bounds(material_term(grid, us), -1500, 1500, 64);
    lemma_sum_bounds(safety_term(grid, us), -200, 0, 64);
    lemma_sum_bounds(amazon_position_term(grid, us), -120, 120, 64);
    lemma_legal_move_count_bounds(grid, us);
    grid.lemma_located(Piece { piece_type: PieceType::King, color: us });
    grid.lemma_located(Piece { piece_type: PieceType::King, color: them });
    grid.lemma_located_where(compound_of(us));
    grid.lemma_located(Piece { piece_type: PieceType::Rook, color: them });
    if let Some(rook) = rook_square(grid, them) {
        lemma_rank_run_bounds(grid, rook, 0);
        lemma_file_run_bounds(grid, rook, 0);
    }
}

/// The table value of every square, weighted.
pub open spec fn amazon_table_term() -> spec_fn(Square) -> int {
    |sq: Square| amazon_table(sq) * AMAZON_CENTER_BONUS
}

/// The weighted table values of all 64 squares add up to 3360.
pub proof fn lemma_amazon_table_total()
    ensures
        sum_squares(amazon_table_term(), 64) == 3360,
{
    let f = amazon_table_term();
    reveal_with_fuel(sum_squares, 9);
    assert(sum_squares(f, 8) == 160);
    assert(sum_squares(f, 16) == 160 + 360);
    assert(sum_squares(f, 24) == 520 + 520);
    assert(sum_squares(f, 32) == 1040 + 640);
    assert(sum_squares(f, 40) == 1680 + 640);
    assert(sum_squares(f, 48) == 2320 + 520);
    assert(sum_squares(f, 56) == 2840 + 360);
    assert(sum_squares(f, 64) == 3200 + 160);
}

/// The squares that hold a piece of `color`.
pub open spec fn held_by(grid: Placement, color: Color) -> spec_fn(Square) -> bool {
    |sq: Square| grid.holds_color(sq, color)
}

/// The squares that hold no piece of `color`.
pub open spec fn free_for(grid: Placement, color: Color) -> spec_fn(Square) -> bool {
    |sq: Square| !grid.holds_color(sq, color)
}

/// Material, safety and mobility together stay within 64 amazons' worth:
/// a square adds to the material only where a piece of the side stands, and
/// to the mobility only where none does.
pub proof fn lemma_material_and_mobility_bounded(pos: Position)
    ensures
        -96000 <= material(pos.placement, pos.side_to_move) + piece_safety(
            pos.placement,
            pos.side_to_move,
        ),
        material(pos.placement, pos.side_to_move) + piece_safety(
            pos.placement,
            pos.side_to_move,
        ) + mobility(pos, pos.side_to_move) <= 96000,
{
    let grid = pos.placement;
    let us = pos.side_to_move;
    let held = indicator(held_by(grid, us));
    let free = indicator(free_for(grid, us));
    let one = |sq: Square| 1int;
    let ours = count_squares(held_by(grid, us), 64);
    let others = count_squares(free_for(grid, us), 64);

    lemma_sum_add(held, free, one, 64);
    lemma_sum_bounds(one, 1, 1, 64);
    lemma_sum_bounds(held, 0, 1, 64);
    lemma_sum_bounds(free, 0, 1, 64);
    assert(ours + others == 64);

    // The material is at most 1500 for each piece of the side.
    let material_cap = |sq: Square| held(sq) * 1500;
    lemma_sum_monotone(material_term(grid, us), material_cap, 64);
    lemma_sum_scaled(held, material_cap, 1500, 64);
    lemma_sum_bounds(safety_term(grid, us), -200, 0, 64);

    // From every square there are at most as many legal moves as there are
    // squares without a piece of the side.
    assert forall|from: Square| on_board(from) implies 0 <= #[trigger] grid.legal_moves_from(us)(
        from,
    ) <= others by {
        lemma_sum_monotone(indicator(grid.legal_targets(us, from)), free, 64);
        lemma_sum_bounds(indicator(grid.legal_targets(us, from)), 0, 1, 64);
    }
    lemma_sum_bounds(grid.legal_moves_from(us), 0, others, 64);
    assert(grid.legal_move_count(us) <= 64 * others);

    // Material and safety together are at least -1500 on every square.
    let both = |sq: Square| material_term(grid, us)(sq) + safety_term(grid, us)(sq);
    lemma_sum_add(material_term(grid, us), safety_term(grid, us), both, 64);
    lemma_sum_bounds(both, -1500, 1500, 64);
}

/// No sum of heuristic terms reaches the checkmate score.
pub proof fn lemma_heuristic_below_checkmate(pos: Position)
    ensures
        -CHECKMATE_SCORE < heuristic_score(pos) < CHECKMATE_SCORE,
{
    let grid = pos.placement;
    let us = pos.side_to_move;
    lemma_heuristic_terms_bounded(pos);
    lemma_material_and_mobility_bounded(pos);
    lemma_amazon_table_total();
    let table = amazon_table_term();
    let negated = |sq: Square| -table(sq);
    lemma_sum_monotone(amazon_position_term(grid, us), table, 64);
    lemma_sum_monotone(negated, amazon_position_term(grid, us), 64);
    lemma_sum_scaled(table, negated, -1, 64);
    grid.lemma_located(Piece { piece_type: PieceType::King, color: us });
    grid.lemma_located(Piece { piece_type: PieceType::King, color: us.other() });
}

/// Terminal scores dominate: the static evaluation never leaves the range
/// between the two checkmate scores, and it reaches them only through a
/// checkmate.
pub proof fn lemma_static_evaluation_bounded(pos: Position)
    ensures
        -CHECKMATE_SCORE <= static_evaluation(pos) <= CHECKMATE_SCORE,
        static_evaluation(pos) == CHECKMATE_SCORE ==> pos.checkmate(pos.side_to_move.other()),
        static_evaluation(pos) == -CHECKMATE_SCORE ==> pos.checkmate(pos.side_to_move),
{
    lemma_heuristic_below_checkmate(pos);
}

/// Computes the material balance of `for_color`.
fn evaluate_material(board: &Board, for_color: Color) -> (score: i32)
    ensures
        score == material(board@.placement, for_color),
{
    let mut our_material: i32 = 0;
    let mut enemy_material: i32 = 0;
    let ghost grid = board@.placement;

    for row in 0..8u8
        invariant
            grid == board@.placement,
            0 <= our_material <= 1500 * (row * 8),
            0 <= enemy_material <= 1500 * (row * 8),
            our_material - enemy_material == sum_squares(material_term(grid, for_color), row * 8),
    {
        for col in 0..8u8
            invariant
                row < 8,
                grid == board@.placement,
                0 <= our_material <= 1500 * (row * 8 + col),
                0 <= enemy_material <= 1500 * (row * 8 + col),
                our_material - enemy_material == sum_squares(
                    material_term(grid, for_color),
                    row * 8 + col,
                ),
        {
            proof {
                lemma_square_index_round_trip();
                assert(square_of_index(row * 8 + col) == (row, col));
            }
            if let Some(piece) = board.get_piece((row, col)) {
                let value = match piece.piece_type {
                    PieceType::Amazon => AMAZON_VALUE,
                    PieceType::QNC => AMAZON_VALUE,
                    PieceType::Rook => ROOK_VALUE,
                    PieceType::King => 0,
                };
                if piece.color == for_color {
                    our_material += value;
                } else {
                    enemy_material += value;
                }
            }
        }
    }

    our_material - enemy_material
}

/// Computes the penalties for the pieces of `for_color` that are attacked.
fn evaluate_piece_safety(board: &Board, for_color: Color) -> (score: i32)
    ensures
        score == piece_safety(board@.placement, for_color),
{
    let mut penalty: i32 = 0;
    let enemy_color = for_color.opposite();
    let ghost grid = board@.placement;

    for row in 0..8u8
        invariant
            grid == board@.placement,
            enemy_color == for_color.other(),
            -200 * (row * 8) <= penalty <= 0,
            penalty == sum_squares(safety_term(grid, for_color), row * 8),
    {
        for col in 0..8u8
            invariant
                row < 8,
                grid == board@.placement,
                enemy_color == for_color.other(),
                -200 * (row * 8 + col) <= penalty <= 0,
                penalty == sum_squares(safety_term(grid, for_color), row * 8 + col),
        {
            proof {
                lemma_square_index_round_trip();
                assert(square_of_index(row * 8 + col) == (row, col));
            }
            if let Some(piece) = board.get_piece((row, col)) {
                if piece.color == for_color && piece.piece_type != PieceType::King {
                    let square = (row, col);
                    if board.is_square_attacked(square, enemy_color) {
                        let piece_value = match piece.piece_type {
                            PieceType::Amazon => AMAZON_VALUE / 10,
                            PieceType::QNC => AMAZON_VALUE / 10,
                            PieceType::Rook => ROOK_VALUE / 10,
                            PieceType::King => 0,
                        };
                        penalty -= piece_value + PIECE_SAFETY_PENALTY;
                    }
                }
            }
        }
    }

    penalty
}

/// Computes the table values of the compound pieces of `for_color` less those of
/// the others.
fn evaluate_amazon_position(board: &Board, for_color: Color) -> (score: i32)
    ensures
        score == amazon_position(board@.placement, for_color),
{
    let mut score: i32 = 0;
    let ghost grid = board@.placement;

    for row in 0..8u8
        invariant
            grid == board@.placement,
            -120 * (row * 8) <= score <= 120 * (row * 8),
            score == sum_squares(amazon_position_term(grid, for_color), row * 8),
    {
        for col in 0..8u8
            invariant
                row < 8,
                grid == board@.placement,
                -120 * (row * 8 + col) <= score <= 120 * (row * 8 + col),
                score == sum_squares(amazon_position_term(grid, for_color), row * 8 + col),
        {
            proof {
                lemma_square_index_round_trip();
                assert(square_of_index(row * 8 + col) == (row, col));
            }
            if let Some(piece) = board.get_piece((row, col)) {
                if piece.piece_type.is_compound() {
                    let pst_value = AMAZON_PST[row as usize][col as usize] * AMAZON_CENTER_BONUS;
                    assert(pst_value == amazon_table((row, col)) * AMAZON_CENTER_BONUS);
                    if piece.color == for_color {
                        score += pst_value;
                    } else {
                        score -= pst_value;
                    }
                }
            }
        }
    }

    score
}

/// Looks up the term for the enemy king's square.
fn evaluate_enemy_king_position(square: Square) -> (score: i32)
    requires
        on_board(square),
    ensures
        score == enemy_king_position(square),
{
    let (row, col) = square;
    ENEMY_KING_PST[row as usize][col as usize] * ENEMY_KING_WEIGHT
}

/// Computes the term for the closeness of the kings.
fn evaluate_king_proximity(our_king: Square, enemy_king: Square) -> (score: i32)
    ensures
        score == king_proximity(our_king, enemy_king),
{
    let distance = chebyshev_distance(our_king, enemy_king);
    (7 - distance) * KING_PROXIMITY_WEIGHT
}

/// Finds the first compound piece of `color`, an amazon or a QNC.
fn find_amazon(board: &Board, color: Color) -> (found: Option<Square>)
    ensures
        found == amazon_square(board@.placement, color),
{
    let ghost grid = board@.placement;
    let ghost wanted = compound_of(color);
    for row in 0..8u8
        invariant
            grid == board@.placement,
            wanted == compound_of(color),
            forall|sq: Square|
                on_board(sq) && sq.0 < row ==> !#[trigger] grid.holds_wanted(wanted, sq),
    {
        for col in 0..8u8
            invariant
                row < 8,
                grid == board@.placement,
                wanted == compound_of(color),
                forall|sq: Square|
                    on_board(sq) && square_index(sq) < row * 8 + col
                        ==> !#[trigger] grid.holds_wanted(wanted, sq),
        {
            if let Some(piece) = board.get_piece((row, col)) {
                if piece.piece_type.is_compound() && piece.color == color {
                    proof {
                        assert(grid.is_first(wanted, (row, col)));
                        grid.lemma_first_is_unique(wanted, (row, col));
                    }
                    return Some((row, col));
                }
            }
        }
    }
    proof {
        grid.lemma_none_wanted(wanted);
    }
    None
}

/// Finds the first rook of `color`.
fn find_rook(board: &Board, color: Color) -> (found: Option<Square>)
    ensures
        found == rook_square(board@.placement, color),
{
    board.find_piece(Piece::new(PieceType::Rook, color))
}

/// Computes the tropism term of `for_color`.
fn evaluate_amazon_tropism(board: &Board, for_color: Color) -> (score: i32)
    ensures
        score == amazon_tropism(board@.placement, for_color),
{
    let enemy_color = for_color.opposite();

    let amazon_sq = find_amazon(board, for_color);
    let enemy_king_sq = board.find_king(enemy_color);

    if let Some(amazon) = amazon_sq {
        if let Some(king) = enemy_king_sq {
            let distance = chebyshev_distance(amazon, king);
            return (7 - distance) * TROPISM_WEIGHT;
        }
    }

    0
}

/// Computes the mobility term of `for_color`: its legal moves are counted
/// only when it is the side to move. The board is left as it was found.
fn evaluate_mobility(board: &mut Board, for_color: Color) -> (score: i32)
    ensures
        final(board)@ == old(board)@,
        score == mobility(old(board)@, for_color),
{
    let current_side = board.side_to_move();

    if current_side == for_color {
        proof {
            lemma_legal_move_count_bounds(board@.placement, for_color);
        }
        let our_moves = board.generate_legal_moves().len() as i32;
        return our_moves * MOBILITY_WEIGHT;
    }

    0
}

/// The smaller of a coordinate's distances to the two edges.
fn distance_to_edge(x: u8) -> (gap: u8)
    requires
        x < 8,
    ensures
        gap == edge_gap(x as int),
{
    if x <= 7 - x {
        x
    } else {
        7 - x
    }
}

/// Computes the cut-off term of `for_color`.
fn evaluate_king_cutoff(board: &Board, for_color: Color) -> (score: i32)
    ensures
        score == king_cutoff(board@.placement, for_color),
{
    let enemy_color = for_color.opposite();

    let our_king_sq = board.find_king(for_color);
    let enemy_king_sq = board.find_king(enemy_color);
    proof {
        let grid = board@.placement;
        grid.lemma_located(Piece { piece_type: PieceType::King, color: for_color });
        grid.lemma_located(Piece { piece_type: PieceType::King, color: enemy_color });
    }

    if let Some(our_king) = our_king_sq {
        if let Some(enemy_king) = enemy_king_sq {
            let mut bonus: i32 = 0;

            if our_king.1 == enemy_king.1 {
                let our_dist_to_edge = distance_to_edge(our_king.0);
                let enemy_dist_to_edge = distance_to_edge(enemy_king.0);
                if our_dist_to_edge > enemy_dist_to_edge {
                    bonus += KING_CUTOFF_BONUS;
                }
            }

            if our_king.0 == enemy_king.0 {
                let our_dist_to_edge = distance_to_edge(our_king.1);
                let enemy_dist_to_edge = distance_to_edge(enemy_king.1);
                if our_dist_to_edge > enemy_dist_to_edge {
                    bonus += KING_CUTOFF_BONUS;
                }
            }

            if chebyshev_distance(our_king, enemy_king) <= 2 {
                bonus += KING_CUTOFF_BONUS / 2;
            }

            return bonus;
        }
    }

    0
}

/// Computes the rook-activity term of `for_color`.
fn evaluate_rook_activity(board: &Board, for_color: Color) -> (score: i32)
    ensures
        score == rook_activity(board@.placement, for_color),
{
    let enemy_color = for_color.opposite();
    let ghost grid = board@.placement;

    let enemy_rook_sq = find_rook(board, enemy_color);
    proof {
        grid.lemma_located(Piece { piece_type: PieceType::Rook, color: enemy_color });
    }

    if let Some(rook) = enemy_rook_sq {
        let mut rook_mobility: i32 = 0;

        let mut col: u8 = 0;
        let mut blocked = false;
        while col < 8 && !blocked
            invariant
                on_board(rook),
                grid == board@.placement,
                0 <= col <= 8,
                0 <= rook_mobility <= col,
                rook_mobility + (if blocked {
                    0
                } else {
                    rank_run(grid, rook, col as int)
                }) == rank_run(grid, rook, 0),
            decreases 8 - col + if blocked { 0int } else { 1int },
        {
            if col != rook.1 && board.get_piece((rook.0, col)).is_some() {
                blocked = true;
            } else {
                if col != rook.1 {
                    rook_mobility += 1;
                }
                col += 1;
            }
        }
        let horizontal = rook_mobility;

        let mut row: u8 = 0;
        blocked = false;
        while row < 8 && !blocked
            invariant
                on_board(rook),
                grid == board@.placement,
                0 <= row <= 8,
                0 <= horizontal <= 8,
                horizontal == rank_run(grid, rook, 0),
                horizontal <= rook_mobility <= horizontal + row,
                rook_mobility - horizontal + (if blocked {
                    0
                } else {
                    file_run(grid, rook, row as int)
                }) == file_run(grid, rook, 0),
            decreases 8 - row + if blocked { 0int } else { 1int },
        {
            if row != rook.0 && board.get_piece((row, rook.1)).is_some() {
                blocked = true;
            } else {
                if row != rook.0 {
                    rook_mobility += 1;
                }
                row += 1;
            }
        }

        proof {
            lemma_rank_run_bounds(grid, rook, 0);
            lemma_file_run_bounds(grid, rook, 0);
        }
        return (14 - rook_mobility) * (ROOK_TRAPPED_BONUS / 7);
    }

    0
}

/// The distance from a square to the nearest corner.
fn nearest_corner_distance(sq: Square) -> (d: i32)
    ensures
        d == corner_distance(sq),
{
    let to_top_left = chebyshev_distance(sq, (0, 0));
    let to_top_right = chebyshev_distance(sq, (0, 7));
    let to_bottom_left = chebyshev_distance(sq, (7, 0));
    let to_bottom_right = chebyshev_distance(sq, (7, 7));
    let top = if to_top_left <= to_top_right {
        to_top_left
    } else {
        to_top_right
    };
    let bottom = if to_bottom_left <= to_bottom_right {
        to_bottom_left
    } else {
        to_bottom_right
    };
    if top <= bottom {
        top
    } else {
        bottom
    }
}

/// Computes how tight the net around the enemy king is.
fn evaluate_mating_net(our_king: Square, enemy_king: Square, amazon: Square) -> (score: i32)
    requires
        on_board(our_king),
        on_board(enemy_king),
        on_board(amazon),
    ensures
        score == mating_net(our_king, enemy_king, amazon),
        0 <= score <= 70,
{
    let corner_dist = nearest_corner_distance(enemy_king);
    let amazon_dist = chebyshev_distance(amazon, enemy_king);
    let our_king_dist = chebyshev_distance(our_king, enemy_king);
    assert(0 <= corner_dist <= 7 && 0 <= amazon_dist <= 7 && 0 <= our_king_dist <= 7);

    let corner_score = (7 - corner_dist) * 2;
    let approach_score = 14 - amazon_dist - our_king_dist;

    (corner_score + approach_score) * MATING_NET_WEIGHT / 10
}

/// Computes the mating-net term of `for_color`.
fn evaluate_mating_distance(board: &Board, for_color: Color) -> (score: i32)
    ensures
        score == mating_distance(board@.placement, for_color),
{
    let enemy_color = for_color.opposite();

    let our_king_sq = board.find_king(for_color);
    let enemy_king_sq = board.find_king(enemy_color);
    let amazon_sq = find_amazon(board, for_color);
    proof {
        let grid = board@.placement;
        grid.lemma_located(Piece { piece_type: PieceType::King, color: for_color });
        grid.lemma_located(Piece { piece_type: PieceType::King, color: enemy_color });
        grid.lemma_located_where(compound_of(for_color));
    }

    if let Some(our_king) = our_king_sq {
        if let Some(enemy_king) = enemy_king_sq {
            if let Some(amazon) = amazon_sq {
                return evaluate_mating_net(our_king, enemy_king, amazon);
            }
        }
    }

    0
}

/// Evaluates the position for the side to move: positive is good for it.
/// Terminal positions are recognised first; the board is left as it was
/// found.
pub fn evaluate(board: &mut Board) -> (score: i32)
    ensures
        final(board)@ == old(board)@,
        score == static_evaluation(old(board)@),
        -CHECKMATE_SCORE <= score <= CHECKMATE_SCORE,
        score == CHECKMATE_SCORE ==> old(board)@.checkmate(old(board)@.side_to_move.other()),
        score == -CHECKMATE_SCORE ==> old(board)@.checkmate(old(board)@.side_to_move),
{
    let for_color = board.side_to_move();
    let enemy_color = for_color.opposite();
    proof {
        lemma_static_evaluation_bounded(board@);
        lemma_heuristic_terms_bounded(board@);
        let grid = board@.placement;
        grid.lemma_located(Piece { piece_type: PieceType::King, color: for_color });
        grid.lemma_located(Piece { piece_type: PieceType::King, color: enemy_color });
    }

    if board.is_checkmate(enemy_color) {
        return CHECKMATE_SCORE;
    }
    if board.is_stalemate(enemy_color) {
        return 0;
    }
    if board.is_checkmate(for_color) {
        return -CHECKMATE_SCORE;
    }
    if board.is_stalemate(for_color) {
        return 0;
    }

    let mut score: i32 = 0;

    score += evaluate_material(board, for_color);
    score += evaluate_piece_safety(board, for_color);
    score += evaluate_amazon_position(board, for_color);

    if let Some(enemy_king_sq) = board.find_king(enemy_color) {
        score += evaluate_enemy_king_position(enemy_king_sq);
    }

    if board.is_in_check(enemy_color) {
        score += CHECK_BONUS;
    }

    if let Some(our_king_sq) = board.find_king(for_color) {
        if let Some(enemy_king_sq) = board.find_king(enemy_color) {
            score += evaluate_king_proximity(our_king_sq, enemy_king_sq);
        }
    }

    score += evaluate_amazon_tropism(board, for_color);
    score += evaluate_mobility(board, for_color);
    score += evaluate_king_cutoff(board, for_color);
    score += evaluate_rook_activity(board, for_color);
    score += evaluate_mating_distance(board, for_color);

    score
}

/// The value that stands for a kind of piece when moves are ordered.
pub open spec fn ordering_value(piece_type: PieceType) -> int {
    match piece_type {
        PieceType::Amazon => AMAZON_VALUE as int,
        PieceType::QNC => AMAZON_VALUE as int,
        PieceType::Rook => ROOK_VALUE as int,
        PieceType::King => KING_ORDERING_VALUE as int,
    }
}

/// The score by which moves are ordered: 0 for a quiet move; for a capture
/// the base score and the victim's value, less a hundredth of the
/// attacker's, so that the most valuable victim comes first and, for equal
/// victims, the least valuable attacker.
pub open spec fn move_score(grid: Placement, mv: Move) -> int {
    match mv.captured {
        None => 0,
        Some(victim) => match grid.piece_at(mv.from) {
            Some(attacker) => CAPTURE_BASE + ordering_value(victim.piece_type) - ordering_value(
                attacker.piece_type,
            ) / 100,
            None => CAPTURE_BASE + ordering_value(victim.piece_type),
        },
    }
}

/// The scores of `moves` never rise from one move to the next.
pub open spec fn descending(grid: Placement, moves: Seq<Move>) -> bool {
    forall|i: int, j: int|
        0 <= i < j < moves.len() ==> move_score(grid, moves[i]) >= move_score(grid, moves[j])
}

/// Where a move with the score `score` joins `sorted`: behind every leading
/// move that scores at least as much.
pub open spec fn insertion_point(grid: Placement, sorted: Seq<Move>, score: int) -> int
    decreases sorted.len(),
{
    if sorted.len() == 0 || move_score(grid, sorted[0]) < score {
        0
    } else {
        1 + insertion_point(grid, sorted.drop_first(), score)
    }
}

/// `moves` sorted by descending score; moves of equal score keep the order
/// in which they came.
pub open spec fn ordered_moves(grid: Placement, moves: Seq<Move>) -> Seq<Move>
    decreases moves.len(),
{
    if moves.len() == 0 {
        Seq::empty()
    } else {
        let rest = ordered_moves(grid, moves.drop_last());
        rest.insert(insertion_point(grid, rest, move_score(grid, moves.last())), moves.last())
    }
}

/// The insertion point is the first place at which the score falls below
/// `score`.
pub proof fn lemma_insertion_point(grid: Placement, sorted: Seq<Move>, score: int, k: int)
    requires
        0 <= k <= sorted.len(),
        forall|j: int| 0 <= j < k ==> move_score(grid, sorted[j]) >= score,
        k < sorted.len() ==> move_score(grid, sorted[k]) < score,
    ensures
        insertion_point(grid, sorted, score) == k,
    decreases k,
{
    if k > 0 {
        let rest = sorted.drop_first();
        assert forall|j: int| 0 <= j < k - 1 implies move_score(grid, rest[j]) >= score by {
            assert(rest[j] == sorted[j + 1]);
        }
        lemma_insertion_point(grid, rest, score, k - 1);
    }
}

/// Before the insertion point every move scores at least `score`, and the
/// move at it, if there is one, scores less.
pub proof fn lemma_insertion_point_splits(grid: Placement, sorted: Seq<Move>, score: int)
    ensures
        0 <= insertion_point(grid, sorted, score) <= sorted.len(),
        forall|j: int|
            0 <= j < insertion_point(grid, sorted, score) ==> move_score(grid, sorted[j]) >= score,
        insertion_point(grid, sorted, score) < sorted.len() ==> move_score(
            grid,
            sorted[insertion_point(grid, sorted, score)],
        ) < score,
    decreases sorted.len(),
{
    if sorted.len() > 0 && move_score(grid, sorted[0]) >= score {
        let rest = sorted.drop_first();
        lemma_insertion_point_splits(grid, rest, score);
        let k = insertion_point(grid, rest, score);
        assert forall|j: int| 0 <= j < k + 1 implies move_score(grid, sorted[j]) >= score by {
            if j > 0 {
                assert(rest[j - 1] == sorted[j]);
            }
        }
        if k < rest.len() {
            assert(rest[k] == sorted[k + 1]);
        }
    }
}

/// Ordering keeps the moves, each as often as it came, and puts them in
/// descending order of score.
pub proof fn lemma_ordered_moves(grid: Placement, moves: Seq<Move>)
    ensures
        ordered_moves(grid, moves).len() == moves.len(),
        ordered_moves(grid, moves).to_multiset() == moves.to_multiset(),
        descending(grid, ordered_moves(grid, moves)),
        forall|mv: Move| #[trigger] ordered_moves(grid, moves).contains(mv) <==> moves.contains(mv),
    decreases moves.len(),
{
    let ordered = ordered_moves(grid, moves);
    if moves.len() == 0 {
        assert(ordered =~= moves);
    } else {
        let last = moves.last();
        let rest = ordered_moves(grid, moves.drop_last());
        let score = move_score(grid, last);
        let k = insertion_point(grid, rest, score);
        lemma_ordered_moves(grid, moves.drop_last());
        lemma_insertion_point_splits(grid, rest, score);
        rest.insert_ensures(k, last);
        vstd::seq_lib::to_multiset_insert(rest, k, last);
        assert(moves =~= moves.drop_last().push(last));
        vstd::seq_lib::to_multiset_insert(moves.drop_last(), moves.len() - 1, last);
        assert(moves.drop_last().insert(moves.len() - 1, last) =~= moves);
        assert forall|i: int, j: int| 0 <= i < j < ordered.len() implies move_score(
            grid,
            ordered[i],
        ) >= move_score(grid, ordered[j]) by {
            if i < k && j > k {
                assert(ordered[i] == rest[i] && ordered[j] == rest[j - 1]);
            } else if i > k {
                assert(ordered[i] == rest[i - 1] && ordered[j] == rest[j - 1]);
            } else if j < k {
                assert(ordered[i] == rest[i] && ordered[j] == rest[j]);
            } else if i == k {
                assert(ordered[j] == rest[j - 1]);
                assert(move_score(grid, rest[k]) >= move_score(grid, rest[j - 1]) || j - 1 == k);
            }
        }
    }
    assert forall|mv: Move| #[trigger] ordered.contains(mv) <==> moves.contains(mv) by {
        ordered.to_multiset_ensures();
        moves.to_multiset_ensures();
        assert(ordered.contains(mv) <==> ordered.to_multiset().count(mv) > 0);
        assert(moves.contains(mv) <==> moves.to_multiset().count(mv) > 0);
    }
}

/// After a move and its score have joined two lists at the same place, the
/// second list still holds the scores of the first.
pub proof fn lemma_scores_follow(
    grid: Placement,
    moves: Seq<Move>,
    scores: Seq<i32>,
    at: int,
    mv: Move,
    score: i32,
)
    requires
        0 <= at <= moves.len(),
        scores.len() == moves.len(),
        score == move_score(grid, mv),
        forall|j: int| 0 <= j < moves.len() ==> scores[j] == move_score(grid, moves[j]),
    ensures
        scores.insert(at, score).len() == moves.insert(at, mv).len(),
        moves.insert(at, mv).len() == moves.len() + 1,
        forall|j: int|
            0 <= j < moves.len() + 1 ==> scores.insert(at, score)[j] == move_score(
                grid,
                moves.insert(at, mv)[j],
            ),
{
    moves.insert_ensures(at, mv);
    scores.insert_ensures(at, score);
    assert forall|j: int| 0 <= j < moves.len() + 1 implies scores.insert(at, score)[j]
        == move_score(grid, moves.insert(at, mv)[j]) by {
        if j < at {
            assert(scores.insert(at, score)[j] == scores[j]);
            assert(moves.insert(at, mv)[j] == moves[j]);
        } else if j > at {
            assert(scores.insert(at, score)[(j - 1) + 1] == scores[j - 1]);
            assert(moves.insert(at, mv)[(j - 1) + 1] == moves[j - 1]);
        }
    }
}

/// The value that stands for a kind of piece when moves are ordered.
fn piece_value(piece_type: PieceType) -> (value: i32)
    ensures
        value == ordering_value(piece_type),
{
    match piece_type {
        PieceType::Amazon => AMAZON_VALUE,
        PieceType::QNC => AMAZON_VALUE,
        PieceType::Rook => ROOK_VALUE,
        PieceType::King => KING_ORDERING_VALUE,
    }
}

/// Scores a move for ordering: the higher, the earlier it is searched.
fn score_move(board: &Board, mv: &Move) -> (score: i32)
    ensures
        score == move_score(board@.placement, *mv),
        0 <= score <= 20000,
{
    let mut score: i32 = 0;

    if let Some(captured) = mv.captured {
        let victim_value = piece_value(captured.piece_type);

        if let Some(attacker) = board.get_piece(mv.from) {
            let attacker_value = piece_value(attacker.piece_type);
            score += CAPTURE_BASE + victim_value - attacker_value / 100;
        } else {
            score += CAPTURE_BASE + victim_value;
        }
    }

    score
}

/// Orders moves for the search, captures first: by descending score, moves
/// of equal score in the order in which they came.
fn order_moves(board: &Board, moves: Vec<Move>) -> (ordered: Vec<Move>)
    ensures
        ordered@ == ordered_moves(board@.placement, moves@),
        ordered@.len() == moves@.len(),
        ordered@.to_multiset() == moves@.to_multiset(),
        descending(board@.placement, ordered@),
        forall|mv: Move| #[trigger] ordered@.contains(mv) <==> moves@.contains(mv),
{
    let ghost grid = board@.placement;
    let mut ordered: Vec<Move> = Vec::new();
    let mut scores: Vec<i32> = Vec::new();

    for i in 0..moves.len()
        invariant
            grid == board@.placement,
            ordered@ == ordered_moves(grid, moves@.take(i as int)),
            scores@.len() == ordered@.len(),
            ordered@.len() == i,
            forall|j: int| 0 <= j < ordered@.len() ==> scores@[j] == move_score(grid, ordered@[j]),
    {
        let mv = moves[i];
        let score = score_move(board, &mv);

        let mut at: usize = 0;
        while at < ordered.len() && scores[at] >= score
            invariant
                0 <= at <= ordered@.len(),
                scores@.len() == ordered@.len(),
                forall|j: int|
                    0 <= j < ordered@.len() ==> scores@[j] == move_score(grid, ordered@[j]),
                forall|j: int| 0 <= j < at ==> move_score(grid, ordered@[j]) >= score,
            decreases ordered@.len() - at,
        {
            at += 1;
        }
        proof {
            lemma_insertion_point(grid, ordered@, score as int, at as int);
            assert(moves@.take(i + 1).drop_last() =~= moves@.take(i as int));
            assert(moves@.take(i + 1).last() == mv);
            lemma_scores_follow(grid, ordered@, scores@, at as int, mv, score);
        }
        ordered.insert(at, mv);
        scores.insert(at, score);
    }

    proof {
        assert(moves@.take(moves@.len() as int) =~= moves@);
        lemma_ordered_moves(grid, moves@);
    }
    ordered
}

/// The pair of squares at place `n` when all pairs (from, to) are counted in
/// row-major order.
pub open spec fn candidate(n: int) -> (Square, Square) {
    (square_of_index(n / 64), square_of_index(n % 64))
}

/// The place of a pair of squares among all pairs.
pub open spec fn candidate_index(from: Square, to: Square) -> int {
    square_index(from) * 64 + square_index(to)
}

/// The greater of two scores.
pub open spec fn larger(a: int, b: int) -> int {
    if a >= b {
        a
    } else {
        b
    }
}

/// The score of a side that is checkmated with `depth` plies left to search:
/// the remaining depth is taken off the score, so that the sooner the mate
/// is met in the search, the lower the mated side scores, and the side that
/// mates prefers the faster mate.
pub open spec fn mate_score(depth: int) -> int {
    -CHECKMATE_SCORE + (100 - depth)
}

/// The greatest magnitude of a score of a search with `depth` plies left:
/// the checkmate score, and beyond depth 100 as much more as the depth
/// lowers the score of a mate.
pub open spec fn score_limit(depth: nat) -> int {
    if depth <= 100 {
        CHECKMATE_SCORE as int
    } else {
        CHECKMATE_SCORE + (depth - 100)
    }
}

/// The moves that the search looks at with `depth` plies left: every legal
/// move above the horizon, and only the captures at it.
pub open spec fn considered(pos: Position, depth: nat, from: Square, to: Square) -> bool {
    pos.legal(from, to) && (depth > 0 || pos.piece_at(to) is Some)
}

/// The depth at which the replies to a move are searched: one less, and at
/// the horizon the horizon again.
pub open spec fn reply_depth(depth: nat) -> nat {
    if depth == 0 {
        0
    } else {
        (depth - 1) as nat
    }
}

/// The score that a side has without looking at any move: at the horizon
/// the static evaluation, above it nothing.
pub open spec fn floor_value(pos: Position, depth: nat) -> int {
    if depth == 0 {
        static_evaluation(pos)
    } else {
        -INFINITY
    }
}

/// What the move from `from` to `to` is worth to the mover: the negated
/// value of the position that it leaves to the opponent.
pub open spec fn reply_value(pos: Position, depth: nat, from: Square, to: Square) -> int {
    -negamax_value(pos.make_move(from, to), reply_depth(depth))
}

/// The best that the side to move can get from the first `n` pairs of
/// squares: its floor value, or the greatest value of a considered move
/// among them.
pub open spec fn best_among(pos: Position, depth: nat, n: int) -> int
    decreases depth, pos.placement.piece_count(), n,
    when pos.wf()
{
    if n <= 0 {
        floor_value(pos, depth)
    } else {
        let rest = best_among(pos, depth, n - 1);
        let (from, to) = candidate(n - 1);
        if considered(pos, depth, from, to) {
            proof {
                if depth == 0 {
                    lemma_capture_removes_a_piece(pos, from, to);
                }
            }
            larger(rest, -negamax_value(pos.make_move(from, to), reply_depth(depth)))
        } else {
            rest
        }
    }
}

/// The value of a position for the side to move, searched `depth` plies deep
/// over every legal move, without any pruning.
///
/// With plies left, a side without a legal move has the mate score if it is
/// in check and 0 if it is not; otherwise its value is that of its best
/// move. At the horizon the value is the quiescence value: the static
/// evaluation, or the value of the best capture if that is more, each
/// capture answered in the same way.
pub open spec fn negamax_value(pos: Position, depth: nat) -> int
    decreases depth, pos.placement.piece_count(), 4097int,
    when pos.wf()
{
    if depth > 0 && !pos.has_legal_move() {
        if pos.in_check(pos.side_to_move) {
            mate_score(depth as int)
        } else {
            0
        }
    } else {
        best_among(pos, depth, 4096)
    }
}

/// A capture takes a piece off the board: a legal move onto an occupied
/// square leaves one piece less.
pub proof fn lemma_capture_removes_a_piece(pos: Position, from: Square, to: Square)
    requires
        pos.wf(),
        pos.legal(from, to),
        pos.piece_at(to) is Some,
    ensures
        pos.make_move(from, to).wf(),
        pos.make_move(from, to).placement.piece_count() == pos.placement.piece_count() - 1,
        0 <= pos.make_move(from, to).placement.piece_count(),
{
    let before = pos.placement;
    let after = pos.make_move(from, to).placement;
    assert(on_board(from) && on_board(to) && from != to);
    assert forall|sq: Square| on_board(sq) && sq != from && sq != to implies #[trigger] indicator(
        before.occupied(),
    )(sq) == indicator(after.occupied())(sq) by {
        assert(after.piece_at(sq) == before.piece_at(sq));
    }
    assert(after.piece_at(from) is None);
    assert(after.piece_at(to) is Some);
    lemma_sum_differs_at_two(
        indicator(before.occupied()),
        indicator(after.occupied()),
        from,
        to,
        64,
    );
    after.lemma_piece_count_bounds();
}

/// Every pair of squares on the board has its place among the candidates.
pub proof fn lemma_candidate_index(from: Square, to: Square)
    requires
        on_board(from),
        on_board(to),
    ensures
        0 <= candidate_index(from, to) < 4096,
        candidate(candidate_index(from, to)) == (from, to),
{
    lemma_square_index_round_trip();
    let i = candidate_index(from, to);
    assert(i / 64 == square_index(from) && i % 64 == square_index(to));
}

/// What holds of the best among the first `n` candidates: it is no less
/// than the floor value and than the value of any considered move among
/// them; it is the floor value or the value of such a move; and, unless it
/// is the floor value, it lies between the two checkmate scores.
pub proof fn lemma_best_among(pos: Position, depth: nat, n: int)
    requires
        pos.wf(),
        depth <= MAX_DEPTH,
        0 <= n <= 4096,
    ensures
        floor_value(pos, depth) <= best_among(pos, depth, n),
        forall|m: int|
            0 <= m < n && considered(pos, depth, candidate(m).0, candidate(m).1) ==> reply_value(
                pos,
                depth,
                #[trigger] candidate(m).0,
                candidate(m).1,
            ) <= best_among(pos, depth, n),
        best_among(pos, depth, n) == floor_value(pos, depth) || exists|m: int|
            0 <= m < n && considered(pos, depth, candidate(m).0, candidate(m).1) && reply_value(
                pos,
                depth,
                #[trigger] candidate(m).0,
                candidate(m).1,
            ) == best_among(pos, depth, n),
        best_among(pos, depth, n) == floor_value(pos, depth) || -score_limit(depth)
            <= best_among(pos, depth, n) <= score_limit(depth),
    decreases depth, pos.placement.piece_count(), n,
{
    if n > 0 {
        lemma_best_among(pos, depth, n - 1);
        let rest = best_among(pos, depth, n - 1);
        let (from, to) = candidate(n - 1);
        if considered(pos, depth, from, to) {
            let child = pos.make_move(from, to);
            if depth == 0 {
                lemma_capture_removes_a_piece(pos, from, to);
            }
            lemma_negamax_value_bounded(child, reply_depth(depth));
            let reply = reply_value(pos, depth, from, to);
            assert(best_among(pos, depth, n) == larger(rest, reply));
            if reply > rest {
                assert(considered(pos, depth, candidate(n - 1).0, candidate(n - 1).1)
                    && reply_value(pos, depth, candidate(n - 1).0, candidate(n - 1).1)
                    == best_among(pos, depth, n));
            } else {
                if rest != floor_value(pos, depth) {
                    let m = choose|m: int|
                        0 <= m < n - 1 && considered(pos, depth, candidate(m).0, candidate(m).1)
                            && reply_value(pos, depth, #[trigger] candidate(m).0, candidate(m).1)
                            == rest;
                    assert(0 <= m < n && considered(pos, depth, candidate(m).0, candidate(m).1)
                        && reply_value(pos, depth, candidate(m).0, candidate(m).1) == best_among(
                        pos,
                        depth,
                        n,
                    ));
                }
            }
        } else {
            if rest != floor_value(pos, depth) {
                let m = choose|m: int|
                    0 <= m < n - 1 && considered(pos, depth, candidate(m).0, candidate(m).1)
                        && reply_value(pos, depth, #[trigger] candidate(m).0, candidate(m).1)
                        == rest;
                assert(0 <= m < n && considered(pos, depth, candidate(m).0, candidate(m).1)
                    && reply_value(pos, depth, candidate(m).0, candidate(m).1) == best_among(
                    pos,
                    depth,
                    n,
                ));
            }
        }
    }
}

/// Every value of the search lies within its limit: up to depth 100
/// between the two checkmate scores, and always inside the full window.
pub proof fn lemma_negamax_value_bounded(pos: Position, depth: nat)
    requires
        pos.wf(),
        depth <= MAX_DEPTH,
    ensures
        -score_limit(depth) <= negamax_value(pos, depth) <= score_limit(depth),
        -INFINITY < negamax_value(pos, depth) < INFINITY,
    decreases depth, pos.placement.piece_count(), 4097int,
{
    if depth > 0 && !pos.has_legal_move() {
    } else {
        lemma_best_among(pos, depth, 4096);
        lemma_static_evaluation_bounded(pos);
        if depth > 0 {
            let (from, to) = choose|from: Square, to: Square| #[trigger]
                pos.placement.legal(pos.side_to_move, from, to);
            lemma_candidate_index(from, to);
            let m = candidate_index(from, to);
            assert(considered(pos, depth, candidate(m).0, candidate(m).1));
            let child = pos.make_move(from, to);
            lemma_negamax_value_bounded(child, reply_depth(depth));
        }
    }
}

/// The value of a position in terms of its moves. At the horizon, and above
/// it where the side to move has a legal move: no considered move is worth
/// more than the position, and the position is worth its floor value or as
/// much as one of its considered moves.
pub proof fn lemma_value_is_best_reply(pos: Position, depth: nat)
    requires
        pos.wf(),
        depth <= MAX_DEPTH,
        depth == 0 || pos.has_legal_move(),
    ensures
        -score_limit(depth) <= negamax_value(pos, depth) <= score_limit(depth),
        floor_value(pos, depth) <= negamax_value(pos, depth),
        forall|from: Square, to: Square| #[trigger]
            considered(pos, depth, from, to) ==> reply_value(pos, depth, from, to)
                <= negamax_value(pos, depth),
        depth == 0 && negamax_value(pos, depth) == floor_value(pos, depth) || exists|
            from: Square,
            to: Square,
        | #[trigger]
            considered(pos, depth, from, to) && reply_value(pos, depth, from, to)
                == negamax_value(pos, depth),
{
    lemma_best_among(pos, depth, 4096);
    lemma_negamax_value_bounded(pos, depth);
    assert forall|from: Square, to: Square| #[trigger]
        considered(pos, depth, from, to) implies reply_value(pos, depth, from, to)
        <= negamax_value(pos, depth) by {
        lemma_candidate_index(from, to);
        let m = candidate_index(from, to);
        assert(candidate(m).0 == from && candidate(m).1 == to);
    }
    if negamax_value(pos, depth) != floor_value(pos, depth) {
        let m = choose|m: int|
            0 <= m < 4096 && considered(pos, depth, candidate(m).0, candidate(m).1) && reply_value(
                pos,
                depth,
                #[trigger] candidate(m).0,
                candidate(m).1,
            ) == best_among(pos, depth, 4096);
        assert(considered(pos, depth, candidate(m).0, candidate(m).1) && reply_value(
            pos,
            depth,
            candidate(m).0,
            candidate(m).1,
        ) == negamax_value(pos, depth));
    }
}

/// What a search with the window from `alpha` to `beta` may return for a
/// position of the value `value`: the value itself if it lies inside the
/// window, and otherwise a score on the same side of the window.
pub open spec fn within_window(score: int, value: int, alpha: int, beta: int) -> bool {
    &&& value <= alpha ==> score <= alpha
    &&& value >= beta ==> score >= beta
    &&& alpha < value < beta ==> score == value
}

/// What the score of a search with the window from `alpha` to `beta` tells
/// of the value of the position: a score inside the window is the value; a
/// score at or below `alpha` is no less than the value; a score at or above
/// `beta` is no more than the value.
pub open spec fn bounds_value(score: int, value: int, alpha: int, beta: int) -> bool {
    &&& score <= alpha ==> value <= score
    &&& score >= beta ==> value >= score
    &&& alpha < score < beta ==> score == value
}

/// A score that bounds the value as a search with a window does lies on
/// the same side of the window as the value, and is the value inside it.
pub proof fn lemma_bound_is_within_window(score: int, value: int, alpha: int, beta: int)
    requires
        alpha < beta,
        bounds_value(score, value, alpha, beta),
    ensures
        within_window(score, value, alpha, beta),
{
}

/// Pruning does not change the score of a search with the full window: a
/// score that lies on the same side of the full window as the value of the
/// unpruned search is that value.
pub proof fn lemma_full_window_is_exact(pos: Position, depth: nat, score: int)
    requires
        pos.wf(),
        depth <= MAX_DEPTH,
        within_window(score, negamax_value(pos, depth), -INFINITY as int, INFINITY as int),
    ensures
        score == negamax_value(pos, depth),
{
    lemma_negamax_value_bounded(pos, depth);
}

/// A faster mate is preferred: the more plies are left when a side is found
/// mated, the lower its score, and so the higher the score of the side that
/// mates.
pub proof fn lemma_faster_mate_scores_lower(more_left: int, fewer_left: int)
    requires
        fewer_left < more_left,
    ensures
        mate_score(more_left) < mate_score(fewer_left),
        -mate_score(more_left) > -mate_score(fewer_left),
{
}

/// The value `v` held between `lo` and `hi`.
pub open spec fn held_between(v: int, lo: int, hi: int) -> int {
    if v < lo {
        lo
    } else if v > hi {
        hi
    } else {
        v
    }
}

/// The side to move has a legal move that captures.
pub open spec fn has_capture(pos: Position) -> bool {
    exists|mv: Move| #[trigger] pos.legal_move(mv) && mv.captured is Some
}

/// What the quiescence search returns for a position and a window.
///
/// Where the static evaluation reaches `beta`, the score is `beta`. Below
/// that, where the side to move has no capture, the score is the static
/// evaluation, whatever `alpha` is. With a capture and `alpha < beta` the
/// score is the quiescence value held between `alpha` and `beta`; with a
/// capture and a window that is empty, it is one of the two bounds.
pub open spec fn horizon_score(pos: Position, alpha: int, beta: int, score: int) -> bool {
    let stand_pat = static_evaluation(pos);
    if stand_pat >= beta {
        score == beta
    } else if !has_capture(pos) {
        score == stand_pat
    } else if alpha < beta {
        score == held_between(negamax_value(pos, 0), alpha, beta)
    } else {
        score == alpha || score == beta
    }
}

/// The moves that capture.
pub open spec fn takes_a_piece() -> spec_fn(Move) -> bool {
    |mv: Move| mv.captured is Some
}

/// Keeps the moves that capture, in their order.
fn capturing_moves(moves: Vec<Move>) -> (captures: Vec<Move>)
    ensures
        captures@ == moves@.filter(takes_a_piece()),
        forall|mv: Move| #[trigger]
            captures@.contains(mv) <==> moves@.contains(mv) && mv.captured is Some,
{
    let mut captures: Vec<Move> = Vec::new();
    proof {
        reveal(Seq::filter);
    }
    for i in 0..moves.len()
        invariant
            captures@ == moves@.take(i as int).filter(takes_a_piece()),
            forall|mv: Move| #[trigger]
                captures@.contains(mv) <==> moves@.take(i as int).contains(mv) && mv.captured
                    is Some,
    {
        let mv = moves[i];
        let ghost before = captures@;
        proof {
            reveal(Seq::filter);
            assert(moves@.take(i + 1).drop_last() =~= moves@.take(i as int));
            assert(moves@.take(i + 1) =~= moves@.take(i as int).push(mv));
            lemma_push_contains(moves@.take(i as int), mv);
        }
        if mv.captured.is_some() {
            captures.push(mv);
            proof {
                lemma_push_contains(before, mv);
            }
        }
    }
    proof {
        assert(moves@.take(moves@.len() as int) =~= moves@);
    }
    captures
}

/// Searches on at the horizon, over captures only, so that the position is
/// not judged in the middle of an exchange: the static evaluation stands
/// unless a capture does better. The board is left as it was found.
///
/// A static evaluation that reaches `beta` is cut off at `beta`; without a
/// capture the static evaluation is returned as it is; otherwise the score
/// is the quiescence value held between `alpha` and `beta`, and so never
/// exceeds `beta`.
fn quiescence(board: &mut Board, alpha: i32, beta: i32) -> (score: i32)
    requires
        -INFINITY <= alpha,
        -INFINITY <= beta,
    ensures
        final(board)@ == old(board)@,
        -INFINITY <= score,
        alpha < beta ==> score <= beta,
        static_evaluation(old(board)@) >= beta ==> score == beta,
        static_evaluation(old(board)@) < beta && (forall|mv: Move| #[trigger]
            old(board)@.legal_move(mv) ==> mv.captured is None) ==> score == static_evaluation(
            old(board)@,
        ),
        horizon_score(old(board)@, alpha as int, beta as int, score as int),
        alpha < beta ==> within_window(
            score as int,
            negamax_value(old(board)@, 0),
            alpha as int,
            beta as int,
        ),
        alpha < beta ==> bounds_value(
            score as int,
            negamax_value(old(board)@, 0),
            alpha as int,
            beta as int,
        ),
    decreases old(board)@.placement.piece_count(),
{
    let ghost pos = board@;
    let ghost value = negamax_value(pos, 0);
    proof {
        board.lemma_view_wf();
        lemma_value_is_best_reply(pos, 0);
        lemma_static_evaluation_bounded(pos);
    }

    let stand_pat = evaluate(board);

    if stand_pat >= beta {
        return beta;
    }
    let mut best = alpha;
    if stand_pat > best {
        best = stand_pat;
    }

    let all_moves = board.generate_legal_moves();
    let captures = capturing_moves(all_moves);

    if captures.len() == 0 {
        proof {
            assert forall|mv: Move| #[trigger] pos.legal_move(mv) implies mv.captured is None by {
                if mv.captured is Some {
                    assert(captures@.contains(mv));
                }
            }
            if value != stand_pat {
                let (from, to) = choose|from: Square, to: Square| #[trigger]
                    considered(pos, 0, from, to) && reply_value(pos, 0, from, to) == value;
                let mv = Move { from, to, captured: pos.piece_at(to) };
                assert(pos.legal_move(mv));
                assert(captures@.contains(mv));
            }
        }
        return stand_pat;
    }

    proof {
        assert(captures@.contains(captures@[0]));
        assert(pos.legal_move(captures@[0]) && captures@[0].captured is Some);
    }
    let ordered_captures = order_moves(board, captures);

    let mut i: usize = 0;
    while i < ordered_captures.len()
        invariant
            board@ == pos,
            old(board)@ == pos,
            pos.wf(),
            value == negamax_value(pos, 0),
            -INFINITY <= alpha,
            -INFINITY <= beta,
            alpha <= best,
            -INFINITY <= best,
            stand_pat <= best,
            stand_pat == static_evaluation(pos),
            stand_pat < beta,
            has_capture(pos),
            alpha >= beta ==> best == alpha,
            alpha < beta ==> best < beta,
            alpha < beta && best > alpha ==> best <= value,
            forall|mv: Move| #[trigger]
                ordered_captures@.contains(mv) <==> pos.legal_move(mv) && mv.captured is Some,
            alpha < beta ==> forall|j: int|
                0 <= j < i ==> reply_value(
                    pos,
                    0,
                    (#[trigger] ordered_captures@[j]).from,
                    ordered_captures@[j].to,
                ) <= best,
            forall|from: Square, to: Square| #[trigger]
                considered(pos, 0, from, to) ==> reply_value(pos, 0, from, to) <= value,
            stand_pat <= value,
            value == stand_pat || exists|from: Square, to: Square| #[trigger]
                considered(pos, 0, from, to) && reply_value(pos, 0, from, to) == value,
        decreases ordered_captures@.len() - i,
    {
        let mv = ordered_captures[i];
        proof {
            assert(ordered_captures@.contains(mv));
            assert(considered(pos, 0, mv.from, mv.to));
            lemma_capture_removes_a_piece(pos, mv.from, mv.to);
            pos.lemma_unmake_undoes_make(mv.from, mv.to);
        }
        board.make_move(mv.from, mv.to);
        let score = -quiescence(board, -beta, -best);
        board.unmake_move(mv);

        if score >= beta {
            return beta;
        }
        if score > best {
            best = score;
        }
        i += 1;
    }

    proof {
        if alpha < beta && alpha < value && value != stand_pat {
            let (from, to) = choose|from: Square, to: Square| #[trigger]
                considered(pos, 0, from, to) && reply_value(pos, 0, from, to) == value;
            let mv = Move { from, to, captured: pos.piece_at(to) };
            assert(pos.legal_move(mv));
            assert(ordered_captures@.contains(mv));
            let j = choose|j: int|
                0 <= j < ordered_captures@.len() && ordered_captures@[j] == mv;
            assert(reply_value(pos, 0, ordered_captures@[j].from, ordered_captures@[j].to) <= best);
        }
    }
    best
}

/// Searches `depth` plies deep with alpha-beta pruning and returns the score
/// of the position for the side to move. At depth 0 the quiescence search
/// takes over. The board is left as it was found.
///
/// With plies left, a side without a legal move scores the mate score if it
/// is in check and 0 if it is not, whatever the window. At depth 0 the score
/// is that of the quiescence search. For a window with `alpha < beta` the
/// score is the value of the unpruned search if that lies inside the
/// window; otherwise it lies on the same side of the window as the value,
/// between the value and the window. With the full window it is the value.
pub fn negamax(board: &mut Board, depth: i32, alpha: i32, beta: i32) -> (score: i32)
    requires
        0 <= depth <= MAX_DEPTH,
        -INFINITY <= alpha,
        -INFINITY <= beta,
    ensures
        final(board)@ == old(board)@,
        -INFINITY <= score,
        depth > 0 && !old(board)@.has_legal_move() ==> score == (if old(board)@.in_check(
            old(board)@.side_to_move,
        ) {
            mate_score(depth as int)
        } else {
            0
        }),
        depth == 0 ==> horizon_score(old(board)@, alpha as int, beta as int, score as int),
        alpha < beta ==> within_window(
            score as int,
            negamax_value(old(board)@, depth as nat),
            alpha as int,
            beta as int,
        ),
        alpha < beta ==> bounds_value(
            score as int,
            negamax_value(old(board)@, depth as nat),
            alpha as int,
            beta as int,
        ),
        alpha == -INFINITY && beta == INFINITY ==> score == negamax_value(
            old(board)@,
            depth as nat,
        ),
    decreases depth,
{
    let ghost pos = board@;
    let ghost value = negamax_value(pos, depth as nat);
    proof {
        board.lemma_view_wf();
        lemma_negamax_value_bounded(pos, depth as nat);
    }

    if depth == 0 {
        return quiescence(board, alpha, beta);
    }

    let moves = board.generate_legal_moves();

    if moves.len() == 0 {
        proof {
            pos.lemma_no_moves_means_none_legal(moves@);
        }
        if board.is_in_check(board.side_to_move()) {
            return -CHECKMATE_SCORE + (100 - depth);
        } else {
            return 0;
        }
    }
    proof {
        pos.lemma_no_moves_means_none_legal(moves@);
        lemma_value_is_best_reply(pos, depth as nat);
    }

    let ordered_moves = order_moves(board, moves);

    let mut best_score = -INFINITY;
    let mut best = alpha;
    let mut cutoff = false;

    let mut i: usize = 0;
    while i < ordered_moves.len() && !cutoff
        invariant
            board@ == pos,
            old(board)@ == pos,
            pos.wf(),
            0 < depth <= MAX_DEPTH,
            value == negamax_value(pos, depth as nat),
            -INFINITY < value < INFINITY,
            -INFINITY <= alpha,
            -INFINITY <= beta,
            -INFINITY <= best_score,
            best == larger(alpha as int, best_score as int),
            alpha < beta ==> (cutoff <==> best >= beta),
            alpha < beta && cutoff ==> value >= beta,
            alpha < beta && best_score > alpha ==> value > alpha,
            alpha < beta && best_score > alpha && best_score < beta ==> best_score <= value,
            alpha < beta && cutoff ==> value >= best_score,
            pos.has_legal_move(),
            forall|mv: Move| #[trigger] ordered_moves@.contains(mv) <==> pos.legal_move(mv),
            alpha < beta && !cutoff ==> forall|j: int|
                0 <= j < i ==> reply_value(
                    pos,
                    depth as nat,
                    (#[trigger] ordered_moves@[j]).from,
                    ordered_moves@[j].to,
                ) <= best_score,
            forall|from: Square, to: Square| #[trigger]
                considered(pos, depth as nat, from, to) ==> reply_value(
                    pos,
                    depth as nat,
                    from,
                    to,
                ) <= value,
            exists|from: Square, to: Square| #[trigger]
                considered(pos, depth as nat, from, to) && reply_value(pos, depth as nat, from, to)
                    == value,
        decreases ordered_moves@.len() - i + if cutoff { 0int } else { 1int },
    {
        let mv = ordered_moves[i];
        proof {
            assert(ordered_moves@.contains(mv));
            assert(considered(pos, depth as nat, mv.from, mv.to));
            pos.lemma_unmake_undoes_make(mv.from, mv.to);
        }
        board.make_move(mv.from, mv.to);
        let score = -negamax(board, depth - 1, -beta, -best);
        board.unmake_move(mv);

        if score > best_score {
            best_score = score;
        }
        if score > best {
            best = score;
        }

        if best >= beta {
            cutoff = true;
        }
        i += 1;
    }

    proof {
        if alpha < beta && !cutoff {
            let (from, to) = choose|from: Square, to: Square| #[trigger]
                considered(pos, depth as nat, from, to) && reply_value(pos, depth as nat, from, to)
                    == value;
            let mv = Move { from, to, captured: pos.piece_at(to) };
            assert(pos.legal_move(mv));
            assert(ordered_moves@.contains(mv));
            let j = choose|j: int| 0 <= j < ordered_moves@.len() && ordered_moves@[j] == mv;
            assert(reply_value(pos, depth as nat, ordered_moves@[j].from, ordered_moves@[j].to)
                <= best_score);
        }
    }
    best_score
}

/// Finds the best move for the side to move by a search `depth` plies deep.
/// The board is left as it was found.
///
/// Nothing is returned exactly when the side to move has no legal move.
/// Otherwise the move is a legal move that is worth as much as the position,
/// and the score is the value of the position as the unpruned search of
/// that depth gives it.
pub fn find_best_move(board: &mut Board, depth: i32) -> (found: Option<(Move, i32)>)
    requires
        1 <= depth <= MAX_DEPTH,
    ensures
        final(board)@ == old(board)@,
        found is None <==> !old(board)@.has_legal_move(),
        found matches Some((mv, score)) ==> {
            &&& old(board)@.legal_move(mv)
            &&& score == negamax_value(old(board)@, depth as nat)
            &&& score == reply_value(old(board)@, depth as nat, mv.from, mv.to)
        },
{
    let ghost pos = board@;
    let ghost value = negamax_value(pos, depth as nat);
    proof {
        board.lemma_view_wf();
        lemma_negamax_value_bounded(pos, depth as nat);
    }
    let moves = board.generate_legal_moves();
    proof {
        pos.lemma_no_moves_means_none_legal(moves@);
    }

    if moves.len() == 0 {
        return None;
    }
    proof {
        lemma_value_is_best_reply(pos, depth as nat);
    }

    let ordered_moves = order_moves(board, moves);

    let mut best_move: Option<Move> = None;
    let mut best_score = -INFINITY;
    let mut alpha = -INFINITY;
    let beta = INFINITY;

    for i in 0..ordered_moves.len()
        invariant
            board@ == pos,
            pos.wf(),
            0 < depth <= MAX_DEPTH,
            beta == INFINITY,
            value == negamax_value(pos, depth as nat),
            -INFINITY < value < INFINITY,
            alpha == best_score,
            i == 0 ==> best_score == -INFINITY && best_move is None,
            i > 0 ==> -INFINITY < best_score <= value,
            i > 0 ==> (best_move matches Some(mv) && pos.legal_move(mv) && best_score
                == reply_value(pos, depth as nat, mv.from, mv.to)),
            forall|mv: Move| #[trigger] ordered_moves@.contains(mv) <==> pos.legal_move(mv),
            forall|j: int|
                0 <= j < i ==> reply_value(
                    pos,
                    depth as nat,
                    (#[trigger] ordered_moves@[j]).from,
                    ordered_moves@[j].to,
                ) <= best_score,
            forall|from: Square, to: Square| #[trigger]
                considered(pos, depth as nat, from, to) ==> reply_value(
                    pos,
                    depth as nat,
                    from,
                    to,
                ) <= value,
    {
        let mv = ordered_moves[i];
        proof {
            assert(ordered_moves@.contains(mv));
            assert(considered(pos, depth as nat, mv.from, mv.to));
            pos.lemma_unmake_undoes_make(mv.from, mv.to);
            lemma_negamax_value_bounded(pos.make_move(mv.from, mv.to), (depth - 1) as nat);
        }
        board.make_move(mv.from, mv.to);
        let score = -negamax(board, depth - 1, -beta, -alpha);
        board.unmake_move(mv);

        if score > best_score {
            best_score = score;
            best_move = Some(mv);
        }
        if score > alpha {
            alpha = score;
        }
    }

    proof {
        let (from, to) = choose|from: Square, to: Square| #[trigger]
            considered(pos, depth as nat, from, to) && reply_value(pos, depth as nat, from, to)
                == value;
        let mv = Move { from, to, captured: pos.piece_at(to) };
        assert(pos.legal_move(mv));
        assert(ordered_moves@.contains(mv));
        let j = choose|j: int| 0 <= j < ordered_moves@.len() && ordered_moves@[j] == mv;
        assert(reply_value(pos, depth as nat, ordered_moves@[j].from, ordered_moves@[j].to)
            <= best_score);
    }
    match best_move {
        Some(mv) => Some((mv, best_score)),
        None => None,
    }
}

} // verus!
