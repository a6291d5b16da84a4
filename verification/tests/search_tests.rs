use rust_chess_engine::board::{Board, Color, Piece, PieceType};
use rust_chess_engine::search::{evaluate, find_best_move, CHECKMATE_SCORE};

#[test]
fn test_find_checkmate_in_one() {
    let mut board = Board::new();

    // Position where White can checkmate in 1
    // Black king at a8 (row 0, col 0) - corner
    // White king at c7 (row 1, col 2) - cuts off b8, b7
    // White Amazon at d4 (row 4, col 3) - can move to b6 for checkmate
    board.set_piece((0, 0), Some(Piece::new(PieceType::King, Color::Black)));
    board.set_piece((1, 2), Some(Piece::new(PieceType::King, Color::White)));
    board.set_piece((4, 3), Some(Piece::new(PieceType::Amazon, Color::White)));
    board.set_side_to_move(Color::White);

    // Verify this is NOT already checkmate
    assert!(
        !board.is_checkmate(Color::Black),
        "Should not be checkmate yet"
    );

    let result = find_best_move(&mut board, 4);
    assert!(result.is_some(), "Should find a move");

    let (best_move, score) = result.unwrap();

    // Score should be very high (checkmate found)
    assert!(
        score > CHECKMATE_SCORE - 1000,
        "Should find checkmate, score: {}, move: {:?}",
        score,
        best_move
    );
}

#[test]
fn test_avoid_stalemate() {
    let mut board = Board::new();

    // Position where White must avoid stalemate
    // If White plays wrong, it's stalemate
    // Black king at h8 (row 0, col 7)
    // White king at h6 (row 2, col 7)
    // White Amazon at f5 (row 3, col 5) - should NOT block all escape squares
    board.set_piece((0, 7), Some(Piece::new(PieceType::King, Color::Black)));
    board.set_piece((2, 7), Some(Piece::new(PieceType::King, Color::White)));
    board.set_piece((3, 5), Some(Piece::new(PieceType::Amazon, Color::White)));
    board.set_side_to_move(Color::White);

    let result = find_best_move(&mut board, 3);
    assert!(result.is_some(), "Should find a move");

    let (best_move, score) = result.unwrap();

    // Apply the move
    board.make_move(best_move.from, best_move.to);

    // Should NOT be stalemate
    assert!(
        !board.is_stalemate(Color::Black),
        "Should avoid stalemate, move: {:?}, score: {}",
        best_move,
        score
    );
}

#[test]
fn test_search_returns_move() {
    let mut board = Board::setup_amazon_vs_rook();

    let result = find_best_move(&mut board, 3);
    assert!(result.is_some(), "Should find a move in starting position");

    let (mv, _score) = result.unwrap();

    // Move should be valid (within board)
    assert!(mv.from.0 < 8 && mv.from.1 < 8);
    assert!(mv.to.0 < 8 && mv.to.1 < 8);
}

#[test]
fn test_no_moves_returns_none() {
    let mut board = Board::new();

    // Checkmate position - no legal moves for Black
    board.set_piece((0, 0), Some(Piece::new(PieceType::King, Color::Black)));
    board.set_piece((2, 0), Some(Piece::new(PieceType::King, Color::White)));
    board.set_piece((2, 1), Some(Piece::new(PieceType::Amazon, Color::White)));
    board.set_side_to_move(Color::Black);

    let result = find_best_move(&mut board, 3);
    assert!(result.is_none(), "Should return None when no legal moves");
}

#[test]
fn test_evaluation_prefers_corner() {
    let mut board_corner = Board::new();
    let mut board_center = Board::new();

    // Black king in corner
    board_corner.set_piece((0, 0), Some(Piece::new(PieceType::King, Color::Black)));
    board_corner.set_piece((7, 4), Some(Piece::new(PieceType::King, Color::White)));
    board_corner.set_piece((7, 3), Some(Piece::new(PieceType::Amazon, Color::White)));
    board_corner.set_side_to_move(Color::White);

    // Black king in center
    board_center.set_piece((4, 4), Some(Piece::new(PieceType::King, Color::Black)));
    board_center.set_piece((7, 4), Some(Piece::new(PieceType::King, Color::White)));
    board_center.set_piece((7, 3), Some(Piece::new(PieceType::Amazon, Color::White)));
    board_center.set_side_to_move(Color::White);

    let score_corner = evaluate(&mut board_corner);
    let score_center = evaluate(&mut board_center);

    assert!(
        score_corner > score_center,
        "Corner ({}) should be better than center ({})",
        score_corner,
        score_center
    );
}
