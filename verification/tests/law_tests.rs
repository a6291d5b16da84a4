use rust_chess_engine::board::{Board, Color, Move, Piece, PieceType};
use rust_chess_engine::search::{evaluate, find_best_move, negamax, CHECKMATE_SCORE, INFINITY};

fn piece(piece_type: PieceType, color: Color) -> Option<Piece> {
    Some(Piece::new(piece_type, color))
}

/// Amazon and king against rook and king, with the pieces in mid-board.
fn middle_game() -> Board {
    let mut board = Board::new();
    board.set_piece((7, 0), piece(PieceType::King, Color::White));
    board.set_piece((4, 3), piece(PieceType::Amazon, Color::White));
    board.set_piece((0, 7), piece(PieceType::King, Color::Black));
    board.set_piece((0, 3), piece(PieceType::Rook, Color::Black));
    board
}

/// A QNC and king against a rook and king.
fn qnc_game() -> Board {
    let mut board = Board::new();
    board.set_piece((6, 1), piece(PieceType::King, Color::White));
    board.set_piece((3, 4), piece(PieceType::QNC, Color::White));
    board.set_piece((1, 6), piece(PieceType::King, Color::Black));
    board.set_piece((2, 2), piece(PieceType::Rook, Color::Black));
    board.set_side_to_move(Color::Black);
    board
}

fn positions() -> Vec<Board> {
    vec![Board::setup_amazon_vs_rook(), middle_game(), qnc_game()]
}

fn snapshot(board: &Board) -> (Vec<Option<Piece>>, Color, usize, u64) {
    let mut cells = Vec::new();
    for row in 0..8 {
        for col in 0..8 {
            cells.push(board.get_piece((row, col)));
        }
    }
    (cells, board.side_to_move(), board.repetition_count(), board.position_hash())
}

#[test]
fn make_then_unmake_restores_every_legal_move() {
    for mut board in positions() {
        let before = snapshot(&board);
        let moves = board.generate_legal_moves();
        assert!(!moves.is_empty());
        for mv in moves {
            let made = board.make_move(mv.from, mv.to);
            assert_eq!(made.captured, mv.captured);
            assert_ne!(board.side_to_move(), before.1);
            board.unmake_move(made);
            assert_eq!(snapshot(&board), before);
        }
    }
}

#[test]
fn make_then_unmake_keeps_the_history_length() {
    let mut board = Board::setup_amazon_vs_rook();
    // Shuffle the amazon out and back twice: the starting position is then
    // in the history twice.
    board.make_move((7, 3), (6, 3));
    board.make_move((0, 0), (1, 0));
    board.make_move((6, 3), (7, 3));
    board.make_move((1, 0), (0, 0));
    assert_eq!(board.repetition_count(), 1);
    assert!(board.is_repetition());

    let mv = board.make_move((7, 3), (6, 3));
    assert_eq!(board.repetition_count(), 1);
    board.unmake_move(mv);
    assert_eq!(board.repetition_count(), 1);

    board.clear_history();
    assert_eq!(board.repetition_count(), 0);
    assert!(!board.is_repetition());
}

#[test]
fn unmake_on_an_empty_history_restores_the_squares() {
    let mut board = Board::new();
    board.set_piece((3, 3), piece(PieceType::Rook, Color::White));
    let mv = Move { from: (4, 3), to: (3, 3), captured: piece(PieceType::King, Color::Black) };
    board.unmake_move(mv);
    assert_eq!(board.get_piece((4, 3)), piece(PieceType::Rook, Color::White));
    assert_eq!(board.get_piece((3, 3)), piece(PieceType::King, Color::Black));
    assert_eq!(board.side_to_move(), Color::Black);
    assert_eq!(board.repetition_count(), 0);
}

#[test]
fn legal_moves_are_pseudo_legal_and_distinct() {
    for mut board in positions() {
        let side = board.side_to_move();
        let moves = board.generate_legal_moves();
        for (i, mv) in moves.iter().enumerate() {
            let owner = board.get_piece(mv.from).expect("a legal move starts on a piece");
            assert_eq!(owner.color, side);
            assert!(board.pseudo_legal_moves(mv.from).contains(&mv.to));
            assert_eq!(mv.captured, board.get_piece(mv.to));
            for other in &moves[i + 1..] {
                assert!(other.from != mv.from || other.to != mv.to);
            }
        }
    }
}

#[test]
fn legal_moves_are_the_pseudo_legal_moves_that_keep_the_king_safe() {
    for mut board in positions() {
        let side = board.side_to_move();
        let moves = board.generate_legal_moves();
        let mut expected = 0;
        for row in 0..8 {
            for col in 0..8 {
                let from = (row, col);
                match board.get_piece(from) {
                    Some(p) if p.color == side => {}
                    _ => continue,
                }
                for to in board.pseudo_legal_moves(from) {
                    let mv = board.make_move(from, to);
                    let safe = !board.is_in_check(side);
                    board.unmake_move(mv);
                    let listed = moves.iter().any(|m| m.from == from && m.to == to);
                    assert_eq!(listed, safe);
                    if safe {
                        expected += 1;
                    }
                }
            }
        }
        assert_eq!(moves.len(), expected);
    }
}

fn mated() -> Board {
    let mut board = Board::new();
    board.set_piece((0, 0), piece(PieceType::King, Color::Black));
    board.set_piece((2, 0), piece(PieceType::King, Color::White));
    board.set_piece((2, 1), piece(PieceType::Amazon, Color::White));
    board
}

fn stalemated() -> Board {
    let mut board = Board::new();
    board.set_piece((0, 0), piece(PieceType::King, Color::Black));
    board.set_piece((2, 1), piece(PieceType::King, Color::White));
    board.set_piece((1, 3), piece(PieceType::Amazon, Color::White));
    board
}

#[test]
fn checkmate_and_stalemate_exclude_each_other() {
    let mut boards = positions();
    boards.push(mated());
    boards.push(stalemated());
    boards.push(Board::new());
    for mut board in boards {
        for color in [Color::White, Color::Black] {
            let before = snapshot(&board);
            let mate = board.is_checkmate(color);
            let stale = board.is_stalemate(color);
            let check = board.is_in_check(color);
            assert!(!(mate && stale));
            if mate {
                assert!(check);
            }
            if stale {
                assert!(!check);
            }
            board.set_side_to_move(color);
            let none = board.generate_legal_moves().is_empty();
            assert_eq!(mate, check && none);
            assert_eq!(stale, !check && none);
            board.set_side_to_move(before.1);
            assert_eq!(snapshot(&board), before);
        }
    }
}

#[test]
fn a_side_without_a_king_is_never_in_check() {
    let mut board = Board::new();
    board.set_piece((4, 4), piece(PieceType::Amazon, Color::White));
    assert_eq!(board.find_king(Color::Black), None);
    assert!(!board.is_in_check(Color::Black));
    assert!(!board.is_checkmate(Color::Black));
    // Black has no piece and so no move: a stalemate.
    assert!(board.is_stalemate(Color::Black));
}

fn naive_quiescence(board: &mut Board) -> i32 {
    let mut best = evaluate(board);
    for mv in board.generate_legal_moves() {
        if mv.captured.is_some() {
            board.make_move(mv.from, mv.to);
            let score = -naive_quiescence(board);
            board.unmake_move(mv);
            if score > best {
                best = score;
            }
        }
    }
    best
}

fn naive_negamax(board: &mut Board, depth: i32) -> i32 {
    if depth == 0 {
        return naive_quiescence(board);
    }
    let moves = board.generate_legal_moves();
    if moves.is_empty() {
        return if board.is_in_check(board.side_to_move()) {
            -CHECKMATE_SCORE + (100 - depth)
        } else {
            0
        };
    }
    let mut best = -INFINITY;
    for mv in moves {
        board.make_move(mv.from, mv.to);
        let score = -naive_negamax(board, depth - 1);
        board.unmake_move(mv);
        if score > best {
            best = score;
        }
    }
    best
}

fn near_mate() -> Board {
    let mut board = Board::new();
    board.set_piece((0, 0), piece(PieceType::King, Color::Black));
    board.set_piece((1, 2), piece(PieceType::King, Color::White));
    board.set_piece((4, 3), piece(PieceType::Amazon, Color::White));
    board
}

#[test]
fn pruned_search_agrees_with_full_search_at_depth_one() {
    let mut boards = positions();
    boards.push(near_mate());
    boards.push(mated());
    for mut board in boards {
        let before = snapshot(&board);
        let full = naive_negamax(&mut board, 1);
        assert_eq!(negamax(&mut board, 1, -INFINITY, INFINITY), full);
        if let Some((mv, score)) = find_best_move(&mut board, 1) {
            assert_eq!(score, full);
            board.make_move(mv.from, mv.to);
            assert_eq!(-naive_negamax(&mut board, 0), full);
            board.unmake_move(mv);
        }
        assert_eq!(snapshot(&board), before);
    }
}

#[test]
fn pruned_search_agrees_with_full_search_at_depth_two() {
    let mut boards = vec![middle_game(), near_mate(), stalemated()];
    for board in boards.iter_mut() {
        let before = snapshot(board);
        let full = naive_negamax(board, 2);
        assert_eq!(negamax(board, 2, -INFINITY, INFINITY), full);
        match find_best_move(board, 2) {
            Some((_, score)) => assert_eq!(score, full),
            None => assert!(board.generate_legal_moves().is_empty()),
        }
        assert_eq!(snapshot(board), before);
    }
}

#[test]
fn quiescence_agrees_with_full_search_at_the_horizon() {
    for mut board in positions() {
        let full = naive_quiescence(&mut board);
        assert_eq!(negamax(&mut board, 0, -INFINITY, INFINITY), full);
    }
}

#[test]
fn a_narrow_window_bounds_the_score_on_the_right_side() {
    let mut board = middle_game();
    let value = naive_negamax(&mut board, 1);
    // The value lies above the window: the search fails high.
    assert!(negamax(&mut board, 1, value - 200, value - 100) >= value - 100);
    // The value lies below the window: the search fails low.
    assert!(negamax(&mut board, 1, value + 100, value + 200) <= value + 100);
    // The value lies inside the window: the search is exact.
    assert_eq!(negamax(&mut board, 1, value - 1, value + 1), value);
}

#[test]
fn heuristic_scores_stay_below_the_checkmate_score() {
    for mut board in positions() {
        for color in [Color::White, Color::Black] {
            board.set_side_to_move(color);
            let score = evaluate(&mut board);
            assert!(-CHECKMATE_SCORE < score && score < CHECKMATE_SCORE);
            let small = rust_chess_engine::evaluation::evaluate(&mut board, color);
            assert!(0 <= small && small <= 520);
        }
    }
}

#[test]
fn a_board_full_of_amazons_scores_below_the_checkmate_score() {
    let mut board = Board::new();
    for row in 0..8 {
        for col in 0..8 {
            board.set_piece((row, col), piece(PieceType::Amazon, Color::White));
        }
    }
    board.set_piece((0, 0), piece(PieceType::Rook, Color::Black));
    let score = evaluate(&mut board);
    assert!(-CHECKMATE_SCORE < score && score < CHECKMATE_SCORE);
    board.set_side_to_move(Color::Black);
    let score = evaluate(&mut board);
    assert!(-CHECKMATE_SCORE < score && score < CHECKMATE_SCORE);
}

#[test]
fn only_checkmate_scores_the_checkmate_score() {
    let mut board = mated();
    assert_eq!(evaluate(&mut board), CHECKMATE_SCORE);
    board.set_side_to_move(Color::Black);
    assert_eq!(evaluate(&mut board), -CHECKMATE_SCORE);
    let mut board = stalemated();
    assert_eq!(evaluate(&mut board), 0);
    board.set_side_to_move(Color::Black);
    assert_eq!(evaluate(&mut board), 0);
}

#[test]
fn the_horizon_search_cuts_off_at_beta_and_stands_pat_without_captures() {
    // No capture is at hand in the starting position.
    let mut board = Board::setup_amazon_vs_rook();
    assert!(board.generate_legal_moves().iter().all(|mv| mv.captured.is_none()));
    let stand_pat = evaluate(&mut board);
    // A static score at or above beta is cut off at beta.
    assert_eq!(negamax(&mut board, 0, stand_pat - 20, stand_pat), stand_pat);
    assert_eq!(negamax(&mut board, 0, stand_pat - 20, stand_pat - 10), stand_pat - 10);
    assert_eq!(negamax(&mut board, 0, -INFINITY, -INFINITY + 1), -INFINITY + 1);
    // Below beta and without a capture, the static score is returned as it
    // is, also where it lies below alpha.
    assert_eq!(negamax(&mut board, 0, stand_pat + 10, stand_pat + 20), stand_pat);
    assert_eq!(negamax(&mut board, 0, stand_pat, stand_pat + 1), stand_pat);
    assert_eq!(negamax(&mut board, 0, stand_pat - 5, stand_pat + 5), stand_pat);
    // The same holds of a window that is empty.
    assert_eq!(negamax(&mut board, 0, stand_pat + 20, stand_pat + 10), stand_pat);
    assert_eq!(negamax(&mut board, 0, stand_pat + 20, stand_pat - 10), stand_pat - 10);
}

#[test]
fn the_horizon_search_holds_the_value_inside_the_window() {
    // The white amazon can take the black amazon.
    let mut board = Board::new();
    board.set_piece((7, 0), piece(PieceType::King, Color::White));
    board.set_piece((4, 3), piece(PieceType::Amazon, Color::White));
    board.set_piece((0, 7), piece(PieceType::King, Color::Black));
    board.set_piece((4, 6), piece(PieceType::Amazon, Color::Black));
    assert!(board.generate_legal_moves().iter().any(|mv| mv.captured.is_some()));
    let stand_pat = evaluate(&mut board);
    let value = naive_quiescence(&mut board);
    assert!(stand_pat < value);

    // Inside the window: the value.
    assert_eq!(negamax(&mut board, 0, stand_pat, value + 1), value);
    // The value above the window: beta, never more.
    assert_eq!(negamax(&mut board, 0, stand_pat, value - 10), value - 10);
    assert_eq!(negamax(&mut board, 0, stand_pat + 1, stand_pat + 2), stand_pat + 2);
    // The value below the window: alpha, never less.
    assert_eq!(negamax(&mut board, 0, value + 10, value + 20), value + 10);
    // The static score at or above beta: beta.
    assert_eq!(negamax(&mut board, 0, stand_pat - 7, stand_pat - 3), stand_pat - 3);
}

#[test]
fn a_side_without_a_move_scores_the_same_in_every_window() {
    for (alpha, beta) in [(-INFINITY, INFINITY), (50, 60), (-200_000, -150_000), (70, 10)] {
        let mut board = mated();
        board.set_side_to_move(Color::Black);
        assert_eq!(negamax(&mut board, 1, alpha, beta), -CHECKMATE_SCORE + 99);
        assert_eq!(negamax(&mut board, 2, alpha, beta), -CHECKMATE_SCORE + 98);
        assert_eq!(negamax(&mut board, 7, alpha, beta), -CHECKMATE_SCORE + 93);

        let mut board = stalemated();
        board.set_side_to_move(Color::Black);
        assert_eq!(negamax(&mut board, 1, alpha, beta), 0);
        assert_eq!(negamax(&mut board, 5, alpha, beta), 0);
    }
}

#[test]
fn a_score_outside_the_window_bounds_the_value() {
    for mut board in positions() {
        for depth in [1, 2] {
            let value = naive_negamax(&mut board, depth);
            // Failing low: the score lies between the value and alpha.
            let low = negamax(&mut board, depth, value + 50, value + 90);
            assert!(value <= low && low <= value + 50);
            // Failing high: the score lies between beta and the value.
            let high = negamax(&mut board, depth, value - 90, value - 50);
            assert!(value - 50 <= high && high <= value);
            // Inside: the value itself.
            assert_eq!(negamax(&mut board, depth, value - 1, value + 1), value);
        }
    }
}
