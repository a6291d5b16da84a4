use rust_chess_engine::board::{Board, Color, Piece, PieceType};

fn piece(piece_type: PieceType, color: Color) -> Option<Piece> {
    Some(Piece::new(piece_type, color))
}

fn same_position(a: &Board, b: &Board) -> bool {
    for row in 0..8 {
        for col in 0..8 {
            if a.get_piece((row, col)) != b.get_piece((row, col)) {
                return false;
            }
        }
    }
    a.side_to_move() == b.side_to_move()
}

#[test]
fn every_piece_survives_the_round_trip() {
    let mut board = Board::new();
    let kinds = [PieceType::King, PieceType::Amazon, PieceType::Rook, PieceType::QNC];
    for (i, kind) in kinds.iter().enumerate() {
        board.set_piece((0, 2 * i as u8), piece(*kind, Color::Black));
        board.set_piece((7, 2 * i as u8 + 1), piece(*kind, Color::White));
        board.set_piece((i as u8 + 2, i as u8), piece(*kind, Color::White));
    }
    for side in [Color::White, Color::Black] {
        board.set_side_to_move(side);
        let fen = board.to_fen();
        let restored = Board::from_fen(&fen).expect("a written description is read back");
        assert!(same_position(&board, &restored));
        assert_eq!(restored.to_fen(), fen);
    }
    board.set_side_to_move(Color::Black);
    assert_eq!(board.to_fen(), "k1a1r1c1/8/K7/1A6/2R5/3C4/8/1K1A1R1C b - - 0 1");
}

#[test]
fn the_empty_board_is_eight_empty_ranks() {
    let board = Board::new();
    assert_eq!(board.to_fen(), "8/8/8/8/8/8/8/8 w - - 0 1");
    let restored = Board::from_fen("8/8/8/8/8/8/8/8").expect("eight ranks");
    assert!(same_position(&board, &restored));
}

#[test]
fn a_description_without_eight_ranks_is_refused() {
    assert!(Board::from_fen("").is_none());
    assert!(Board::from_fen("   \t ").is_none());
    assert!(Board::from_fen("8/8/8/8/8/8/8 w").is_none());
    assert!(Board::from_fen("8/8/8/8/8/8/8/8/8 w").is_none());
    assert!(Board::from_fen("w 8/8/8/8/8/8/8/8").is_none());
    assert!(Board::from_fen("///////").is_some());
}

#[test]
fn the_side_to_move_is_white_unless_black_is_named() {
    for (text, side) in [
        ("8/8/8/8/8/8/8/8 w", Color::White),
        ("8/8/8/8/8/8/8/8 W", Color::White),
        ("8/8/8/8/8/8/8/8 b", Color::Black),
        ("8/8/8/8/8/8/8/8 B", Color::Black),
        ("8/8/8/8/8/8/8/8 x", Color::White),
        ("8/8/8/8/8/8/8/8 bb", Color::White),
        ("8/8/8/8/8/8/8/8", Color::White),
        ("  8/8/8/8/8/8/8/8\t\tb   - - 0 1 ", Color::Black),
    ] {
        let board = Board::from_fen(text).expect("eight ranks");
        assert_eq!(board.side_to_move(), side);
    }
}

#[test]
fn letters_digits_and_strangers_fill_a_rank() {
    // A queen reads as an amazon, an unknown letter passes one square, a
    // digit from 1 to 8 its value, and what lies beyond the eighth square is
    // dropped.
    let board = Board::from_fen("Qx2q3/7Kk/9R/R9/44r/8/8/1c1C4RRR").expect("eight ranks");
    assert_eq!(board.get_piece((0, 0)), piece(PieceType::Amazon, Color::White));
    assert_eq!(board.get_piece((0, 1)), None);
    assert_eq!(board.get_piece((0, 4)), piece(PieceType::Amazon, Color::Black));
    assert_eq!(board.get_piece((1, 7)), piece(PieceType::King, Color::White));
    assert_eq!(board.get_piece((2, 0)), None);
    assert_eq!(board.get_piece((2, 1)), piece(PieceType::Rook, Color::White));
    assert_eq!(board.get_piece((3, 0)), piece(PieceType::Rook, Color::White));
    assert_eq!(board.get_piece((4, 7)), None);
    assert_eq!(board.get_piece((7, 1)), piece(PieceType::QNC, Color::Black));
    assert_eq!(board.get_piece((7, 3)), piece(PieceType::QNC, Color::White));
    assert_eq!(board.to_fen(), "A3a3/7K/1R6/R7/8/8/8/1c1C4 w - - 0 1");
}

#[test]
fn a_board_that_is_read_has_no_history() {
    let mut board = Board::from_fen("r3k3/8/8/8/8/8/8/3AK3 w - - 0 1").expect("eight ranks");
    assert_eq!(board.repetition_count(), 0);
    assert_eq!(board.generate_legal_moves().len(), 25);
}

#[test]
fn the_picture_shows_every_square() {
    let board = Board::setup_amazon_vs_rook();
    let expected = "  a b c d e f g h\n\
                    \x20 +-+-+-+-+-+-+-+\n\
                    8 r . . . k . . . | 8\n\
                    7 . . . . . . . . | 7\n\
                    6 . . . . . . . . | 6\n\
                    5 . . . . . . . . | 5\n\
                    4 . . . . . . . . | 4\n\
                    3 . . . . . . . . | 3\n\
                    2 . . . . . . . . | 2\n\
                    1 . . . A K . . . | 1\n\
                    \x20 +-+-+-+-+-+-+-+\n\
                    \x20 a b c d e f g h\n\
                    \n\
                    Side to move: White\n";
    assert_eq!(board.display(), expected);

    let mut board = Board::new();
    board.set_piece((3, 2), piece(PieceType::QNC, Color::Black));
    board.set_side_to_move(Color::Black);
    let picture = board.display();
    assert!(picture.contains("5 . . c . . . . . | 5\n"));
    assert!(picture.ends_with("Side to move: Black\n"));
}
