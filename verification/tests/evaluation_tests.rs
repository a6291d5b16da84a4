use rust_chess_engine::board::{Board, Color, Piece, PieceType};
use rust_chess_engine::evaluation::{evaluate, CHECKMATE_SCORE};

#[test]
fn test_checkmate_score() {
    let mut board = Board::new();

    // Checkmate position: Black king at a8, White king at a6, White Amazon at b6
    board.set_piece((0, 0), Some(Piece::new(PieceType::King, Color::Black)));
    board.set_piece((2, 0), Some(Piece::new(PieceType::King, Color::White)));
    board.set_piece((2, 1), Some(Piece::new(PieceType::Amazon, Color::White)));

    // From White's perspective, this is checkmate (max score)
    let score = evaluate(&mut board, Color::White);
    assert_eq!(score, CHECKMATE_SCORE);

    // From Black's perspective, this is being checkmated (negative max score)
    let score_black = evaluate(&mut board, Color::Black);
    assert_eq!(score_black, -CHECKMATE_SCORE);
}

#[test]
fn test_stalemate_score() {
    let mut board = Board::new();

    // Stalemate position from previous test
    board.set_piece((0, 7), Some(Piece::new(PieceType::King, Color::Black))); // h8
    board.set_piece((2, 7), Some(Piece::new(PieceType::King, Color::White))); // h6
    board.set_piece((2, 4), Some(Piece::new(PieceType::Amazon, Color::White))); // e6

    // Stalemate = draw = 0
    let score = evaluate(&mut board, Color::White);
    assert_eq!(score, 0);
}

#[test]
fn test_king_corner_better_than_center() {
    let mut board_corner = Board::new();
    let mut board_center = Board::new();

    // Setup 1: Black king in corner (a8)
    board_corner.set_piece((0, 0), Some(Piece::new(PieceType::King, Color::Black)));
    board_corner.set_piece((7, 4), Some(Piece::new(PieceType::King, Color::White)));
    board_corner.set_piece((7, 3), Some(Piece::new(PieceType::Amazon, Color::White)));

    // Setup 2: Black king in center (d4)
    board_center.set_piece((4, 3), Some(Piece::new(PieceType::King, Color::Black)));
    board_center.set_piece((7, 4), Some(Piece::new(PieceType::King, Color::White)));
    board_center.set_piece((7, 3), Some(Piece::new(PieceType::Amazon, Color::White)));

    let score_corner = evaluate(&mut board_corner, Color::White);
    let score_center = evaluate(&mut board_center, Color::White);

    // King in corner should be higher score for White
    assert!(
        score_corner > score_center,
        "Corner ({}) should be better than center ({})",
        score_corner,
        score_center
    );
}

#[test]
fn test_check_bonus() {
    let mut board_check = Board::new();
    let mut board_no_check = Board::new();

    // Setup 1: Black king in check
    board_check.set_piece((0, 4), Some(Piece::new(PieceType::King, Color::Black)));
    board_check.set_piece((7, 4), Some(Piece::new(PieceType::King, Color::White)));
    board_check.set_piece((4, 4), Some(Piece::new(PieceType::Amazon, Color::White))); // On same file

    // Setup 2: Black king not in check
    board_no_check.set_piece((0, 4), Some(Piece::new(PieceType::King, Color::Black)));
    board_no_check.set_piece((7, 4), Some(Piece::new(PieceType::King, Color::White)));
    board_no_check.set_piece((7, 3), Some(Piece::new(PieceType::Amazon, Color::White))); // Not attacking

    let score_check = evaluate(&mut board_check, Color::White);
    let score_no_check = evaluate(&mut board_no_check, Color::White);

    // Check position should have higher score
    assert!(
        score_check > score_no_check,
        "Check ({}) should give bonus over no check ({})",
        score_check,
        score_no_check
    );
}

#[test]
fn test_king_proximity() {
    let mut board_close = Board::new();
    let mut board_far = Board::new();

    // Setup 1: Kings close together
    board_close.set_piece((0, 0), Some(Piece::new(PieceType::King, Color::Black)));
    board_close.set_piece((2, 2), Some(Piece::new(PieceType::King, Color::White))); // Close
    board_close.set_piece((7, 7), Some(Piece::new(PieceType::Amazon, Color::White)));

    // Setup 2: Kings far apart
    board_far.set_piece((0, 0), Some(Piece::new(PieceType::King, Color::Black)));
    board_far.set_piece((7, 7), Some(Piece::new(PieceType::King, Color::White))); // Far
    board_far.set_piece((7, 6), Some(Piece::new(PieceType::Amazon, Color::White)));

    let score_close = evaluate(&mut board_close, Color::White);
    let score_far = evaluate(&mut board_far, Color::White);

    // Closer Kings should give higher score
    assert!(
        score_close > score_far,
        "Close kings ({}) should be better than far kings ({})",
        score_close,
        score_far
    );
}
