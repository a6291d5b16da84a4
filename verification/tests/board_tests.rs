use rust_chess_engine::board::{Board, Color, Piece, PieceType};

#[test]
fn test_color_opposite() {
    assert_eq!(Color::White.opposite(), Color::Black);
    assert_eq!(Color::Black.opposite(), Color::White);
}

#[test]
fn test_piece_creation() {
    let white_king = Piece::new(PieceType::King, Color::White);
    assert_eq!(white_king.piece_type, PieceType::King);
    assert_eq!(white_king.color, Color::White);

    let white_amazon = Piece::new(PieceType::Amazon, Color::White);
    assert_eq!(white_amazon.piece_type, PieceType::Amazon);
    assert_eq!(white_amazon.color, Color::White);
}

#[test]
fn test_board_empty() {
    let board = Board::new();

    // All squares should be empty
    for row in 0..8 {
        for col in 0..8 {
            assert_eq!(board.get_piece((row, col)), None);
        }
    }

    // Default side to move is White
    assert_eq!(board.side_to_move(), Color::White);
}

#[test]
fn test_board_set_get_piece() {
    let mut board = Board::new();
    let king = Piece::new(PieceType::King, Color::White);

    // Set piece
    board.set_piece((4, 4), Some(king));

    // Get piece
    let retrieved = board.get_piece((4, 4));
    assert_eq!(retrieved, Some(king));

    // Remove piece
    board.set_piece((4, 4), None);
    assert_eq!(board.get_piece((4, 4)), None);
}

#[test]
fn test_amazon_vs_rook_setup() {
    let board = Board::setup_amazon_vs_rook();

    // Black Rook on a8 (row 0, col 0)
    let black_rook = board.get_piece((0, 0)).expect("There should be a piece at (0, 0)");
    assert_eq!(black_rook.piece_type, PieceType::Rook, "Piece at (0, 0) should be a Rook");
    assert_eq!(black_rook.color, Color::Black, "Rook at (0, 0) should be Black");

    // Black King on e8 (row 0, col 4)
    let black_king = board.get_piece((0, 4)).expect("There should be a piece at (0, 4)");
    assert_eq!(black_king.piece_type, PieceType::King, "Piece at (0, 4) should be a King");
    assert_eq!(black_king.color, Color::Black, "King at (0, 4) should be Black");

    // White Amazon on d1 (row 7, col 3)
    let white_amazon = board.get_piece((7, 3)).expect("There should be a piece at (7, 3)");
    assert_eq!(white_amazon.piece_type, PieceType::Amazon, "Piece at (7, 3) should be Amazon");
    assert_eq!(white_amazon.color, Color::White, "Amazon at (7, 3) should be White");

    // White King on e1 (row 7, col 4)
    let white_king = board.get_piece((7, 4)).expect("There should be a piece at (7, 4)");
    assert_eq!(white_king.piece_type, PieceType::King, "Piece at (7, 4) should be a King");
    assert_eq!(white_king.color, Color::White, "King at (7, 4) should be White");

    // Side to move is White
    assert_eq!(board.side_to_move(), Color::White);
}

#[test]
fn test_board_display() {
    let board = Board::setup_amazon_vs_rook();
    let display = board.display();

    // Check that the display contains expected elements
    assert!(display.contains("a b c d e f g h"));
    assert!(display.contains("k")); // Black king (lowercase)
    assert!(display.contains("K")); // White king (uppercase)
    assert!(display.contains("A")); // White Amazon (uppercase)
    assert!(display.contains("r")); // Black rook (lowercase)
    assert!(display.contains("Side to move: White"));
}

#[test]
fn test_make_move_basic() {
    let mut board = Board::new();
    let king = Piece::new(PieceType::King, Color::White);
    board.set_piece((4, 4), Some(king)); // e4

    // Move king from e4 to e5
    let mv = board.make_move((4, 4), (3, 4));

    // Check piece moved
    assert_eq!(board.get_piece((4, 4)), None, "Original square should be empty");
    assert_eq!(board.get_piece((3, 4)), Some(king), "Piece should be at new square");

    // Check move info
    assert_eq!(mv.from, (4, 4));
    assert_eq!(mv.to, (3, 4));
    assert_eq!(mv.captured, None);

    // Check side to move toggled
    assert_eq!(board.side_to_move(), Color::Black);
}

#[test]
fn test_make_move_capture() {
    let mut board = Board::new();
    let white_king = Piece::new(PieceType::King, Color::White);
    let black_king = Piece::new(PieceType::King, Color::Black);

    board.set_piece((4, 4), Some(white_king));
    board.set_piece((3, 4), Some(black_king));

    // White king captures black king
    let mv = board.make_move((4, 4), (3, 4));

    // Check capture info stored
    assert_eq!(mv.captured, Some(black_king));

    // Check board state
    assert_eq!(board.get_piece((4, 4)), None);
    assert_eq!(board.get_piece((3, 4)), Some(white_king));
}

#[test]
fn test_unmake_move_basic() {
    let mut board = Board::new();
    let king = Piece::new(PieceType::King, Color::White);
    board.set_piece((4, 4), Some(king));

    // Make and unmake move
    let mv = board.make_move((4, 4), (3, 4));
    board.unmake_move(mv);

    // Check board restored
    assert_eq!(board.get_piece((4, 4)), Some(king), "Piece should be back at original square");
    assert_eq!(board.get_piece((3, 4)), None, "Target square should be empty");

    // Check side to move restored
    assert_eq!(board.side_to_move(), Color::White);
}

#[test]
fn test_unmake_move_capture() {
    let mut board = Board::new();
    let white_king = Piece::new(PieceType::King, Color::White);
    let black_king = Piece::new(PieceType::King, Color::Black);

    board.set_piece((4, 4), Some(white_king));
    board.set_piece((3, 4), Some(black_king));

    // Make and unmake capture
    let mv = board.make_move((4, 4), (3, 4));
    board.unmake_move(mv);

    // Check both pieces restored
    assert_eq!(board.get_piece((4, 4)), Some(white_king), "White king should be restored");
    assert_eq!(board.get_piece((3, 4)), Some(black_king), "Captured piece should be restored");

    // Check side to move restored
    assert_eq!(board.side_to_move(), Color::White);
}

#[test]
fn test_find_king() {
    let board = Board::setup_amazon_vs_rook();

    // Find white king at e1 (row 7, col 4)
    assert_eq!(board.find_king(Color::White), Some((7, 4)));

    // Find black king at e8 (row 0, col 4)
    assert_eq!(board.find_king(Color::Black), Some((0, 4)));
}

#[test]
fn test_king_not_in_check() {
    // Amazon vs Rook setup: kings are far apart
    let board = Board::setup_amazon_vs_rook();

    // Black king at e8 is not in check (Amazon at d1 can't reach)
    assert!(!board.is_in_check(Color::Black));

    // White king at e1 is not attacked by black
    assert!(!board.is_in_check(Color::White));
}

#[test]
fn test_king_in_check_by_amazon_queen_move() {
    let mut board = Board::new();

    // Black king at e8 (row 0, col 4)
    board.set_piece((0, 4), Some(Piece::new(PieceType::King, Color::Black)));

    // White Amazon at e1 (row 7, col 4) - same file, Queen-like attack
    board.set_piece((7, 4), Some(Piece::new(PieceType::Amazon, Color::White)));

    // Black king should be in check (Amazon attacks on e-file)
    assert!(board.is_in_check(Color::Black));
}

#[test]
fn test_king_in_check_by_amazon_knight_move() {
    let mut board = Board::new();

    // Black king at e4 (row 4, col 4)
    board.set_piece((4, 4), Some(Piece::new(PieceType::King, Color::Black)));

    // White Amazon at f6 (row 2, col 5) - Knight-like attack (2,1)
    board.set_piece((2, 5), Some(Piece::new(PieceType::Amazon, Color::White)));

    // Black king should be in check
    assert!(board.is_in_check(Color::Black));
}

#[test]
fn test_king_in_check_by_rook() {
    let mut board = Board::new();

    // Black king at e4 (row 4, col 4)
    board.set_piece((4, 4), Some(Piece::new(PieceType::King, Color::Black)));

    // White Rook at e1 (row 7, col 4) - same file attack
    board.set_piece((7, 4), Some(Piece::new(PieceType::Rook, Color::White)));

    // Black king should be in check
    assert!(board.is_in_check(Color::Black));
}

#[test]
fn test_king_in_check_by_enemy_king() {
    let mut board = Board::new();

    // Black king at e4 (row 4, col 4)
    board.set_piece((4, 4), Some(Piece::new(PieceType::King, Color::Black)));

    // White king at e5 (row 3, col 4) - adjacent
    board.set_piece((3, 4), Some(Piece::new(PieceType::King, Color::White)));

    // Both kings attack each other
    assert!(board.is_in_check(Color::Black));
    assert!(board.is_in_check(Color::White));
}

#[test]
fn test_legal_moves_excludes_self_check() {
    let mut board = Board::new();

    // White king at e1 (row 7, col 4)
    board.set_piece((7, 4), Some(Piece::new(PieceType::King, Color::White)));

    // Black Amazon at e8 (row 0, col 4) - controls e-file
    board.set_piece((0, 4), Some(Piece::new(PieceType::Amazon, Color::Black)));

    // Black king somewhere safe
    board.set_piece((0, 0), Some(Piece::new(PieceType::King, Color::Black)));

    board.set_side_to_move(Color::White);
    let legal_moves = board.generate_legal_moves();

    // White king cannot stay on e-file (e2 would be check)
    // Can only move to d1, d2, f1, f2
    for mv in &legal_moves {
        assert_ne!(mv.to.1, 4, "King should not move to e-file (col 4)");
    }

    // Should have exactly 4 legal moves (d1, d2, f1, f2)
    assert_eq!(legal_moves.len(), 4);
}

#[test]
fn test_legal_moves_king_safe() {
    let mut board = Board::new();

    // White king at e4 (row 4, col 4) - center of board
    board.set_piece((4, 4), Some(Piece::new(PieceType::King, Color::White)));

    // Black king far away
    board.set_piece((0, 0), Some(Piece::new(PieceType::King, Color::Black)));

    board.set_side_to_move(Color::White);
    let legal_moves = board.generate_legal_moves();

    // King at center should have 8 legal moves
    assert_eq!(legal_moves.len(), 8);
}

#[test]
fn test_legal_moves_checkmate_position() {
    let mut board = Board::new();

    // Black king at a8 (row 0, col 0) - corner
    board.set_piece((0, 0), Some(Piece::new(PieceType::King, Color::Black)));

    // White king at a6 (row 2, col 0) - cuts off escape
    board.set_piece((2, 0), Some(Piece::new(PieceType::King, Color::White)));

    // White Amazon at b6 (row 2, col 1) - gives check and covers escape squares
    board.set_piece((2, 1), Some(Piece::new(PieceType::Amazon, Color::White)));

    board.set_side_to_move(Color::Black);

    // Black king is in check
    assert!(board.is_in_check(Color::Black));

    let legal_moves = board.generate_legal_moves();

    // Black king has no legal moves - checkmate!
    assert_eq!(legal_moves.len(), 0, "Should be checkmate with no legal moves");
}

#[test]
fn test_is_checkmate() {
    let mut board = Board::new();

    // Black king at a8 (row 0, col 0) - corner
    board.set_piece((0, 0), Some(Piece::new(PieceType::King, Color::Black)));

    // White king at a6 (row 2, col 0) - cuts off escape
    board.set_piece((2, 0), Some(Piece::new(PieceType::King, Color::White)));

    // White Amazon at b6 (row 2, col 1) - gives check and covers escape squares
    board.set_piece((2, 1), Some(Piece::new(PieceType::Amazon, Color::White)));

    // Black is in checkmate
    assert!(board.is_checkmate(Color::Black));

    // White is not in checkmate
    assert!(!board.is_checkmate(Color::White));
}

#[test]
fn test_is_not_checkmate_when_not_in_check() {
    let mut board = Board::new();

    // White king at e1
    board.set_piece((7, 4), Some(Piece::new(PieceType::King, Color::White)));

    // Black king far away
    board.set_piece((0, 0), Some(Piece::new(PieceType::King, Color::Black)));

    // Neither side is in checkmate
    assert!(!board.is_checkmate(Color::White));
    assert!(!board.is_checkmate(Color::Black));
}

#[test]
fn test_is_stalemate() {
    let mut board = Board::new();

    // Stalemate position with Amazon + K vs K:
    // Black king at a8 (row 0, col 0)
    // White king at b6 (row 2, col 1) - controls a7, b7
    // White Amazon at d7 (row 1, col 3) - controls b8 via knight move
    //   d7 to a8: (-1, -3) = NOT Amazon move (Amazon has no camel)
    //   d7 to b8: (-1, -2) = knight move, blocks b8
    //
    // Black king at a8 escape squares:
    //   a7 -> blocked by White king
    //   b7 -> blocked by White king
    //   b8 -> blocked by Amazon (knight move)
    //
    // Black king at a8 has no legal moves = stalemate!

    board.set_piece((0, 0), Some(Piece::new(PieceType::King, Color::Black))); // a8
    board.set_piece((2, 1), Some(Piece::new(PieceType::King, Color::White))); // b6
    board.set_piece((1, 3), Some(Piece::new(PieceType::Amazon, Color::White))); // d7

    // Verify: black king at a8 is NOT in check
    assert!(!board.is_in_check(Color::Black), "Black should NOT be in check for stalemate");

    // Black is in stalemate (not in check, but no legal moves)
    assert!(board.is_stalemate(Color::Black));

    // Black is NOT in checkmate
    assert!(!board.is_checkmate(Color::Black));
}

#[test]
fn test_not_stalemate_with_legal_moves() {
    let mut board = Board::new();

    // White king at e4 (center, has moves)
    board.set_piece((4, 4), Some(Piece::new(PieceType::King, Color::White)));

    // Black king far away
    board.set_piece((0, 0), Some(Piece::new(PieceType::King, Color::Black)));

    // Neither side is in stalemate
    assert!(!board.is_stalemate(Color::White));
    assert!(!board.is_stalemate(Color::Black));
}

#[test]
fn test_from_fen_starting_position() {
    let fen = "r3k3/8/8/8/8/8/8/3AK3 w - - 0 1";
    let board = Board::from_fen(fen).expect("FEN should parse");

    // Black Rook on a8 (row 0, col 0)
    let black_rook = board.get_piece((0, 0)).expect("Should have piece at a8");
    assert_eq!(black_rook.piece_type, PieceType::Rook);
    assert_eq!(black_rook.color, Color::Black);

    // Black King on e8 (row 0, col 4)
    let black_king = board.get_piece((0, 4)).expect("Should have piece at e8");
    assert_eq!(black_king.piece_type, PieceType::King);
    assert_eq!(black_king.color, Color::Black);

    // White Amazon on d1 (row 7, col 3)
    let white_amazon = board.get_piece((7, 3)).expect("Should have piece at d1");
    assert_eq!(white_amazon.piece_type, PieceType::Amazon);
    assert_eq!(white_amazon.color, Color::White);

    // White King on e1 (row 7, col 4)
    let white_king = board.get_piece((7, 4)).expect("Should have piece at e1");
    assert_eq!(white_king.piece_type, PieceType::King);
    assert_eq!(white_king.color, Color::White);

    // White to move
    assert_eq!(board.side_to_move(), Color::White);
}

#[test]
fn test_from_fen_black_to_move() {
    let fen = "r3k3/8/8/8/8/8/8/3AK3 b - - 0 1";
    let board = Board::from_fen(fen).expect("FEN should parse");
    assert_eq!(board.side_to_move(), Color::Black);
}

#[test]
fn test_to_fen() {
    let board = Board::setup_amazon_vs_rook();
    let fen = board.to_fen();
    assert_eq!(fen, "r3k3/8/8/8/8/8/8/3AK3 w - - 0 1");
}

#[test]
fn test_fen_roundtrip() {
    let original = Board::setup_amazon_vs_rook();
    let fen = original.to_fen();
    let restored = Board::from_fen(&fen).expect("Should parse own FEN");

    // Verify pieces match
    for row in 0..8 {
        for col in 0..8 {
            assert_eq!(
                original.get_piece((row, col)),
                restored.get_piece((row, col)),
                "Piece mismatch at ({}, {})",
                row,
                col
            );
        }
    }
    assert_eq!(original.side_to_move(), restored.side_to_move());
}
