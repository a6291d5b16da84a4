use rust_chess_engine::board::{Board, Color};
use rust_chess_engine::console::{
    game_state, parse_command, parse_move, square_to_notation, Command, GameState,
};
use rust_chess_engine::text::{chars_of, parse_i32, split_words, trim};
use rust_chess_engine::uci::{
    is_legal, parse_go_command, parse_position, parse_square, parse_uci_move, UciSession,
};

fn split(line: &str) -> Vec<Vec<char>> {
    split_words(&chars_of(line))
}

fn number(text: &str) -> Option<i32> {
    parse_i32(&chars_of(text))
}

#[test]
fn words_are_runs_without_white_space() {
    let parts: Vec<String> = split("  go\tdepth \u{a0}5\n").iter().map(|w| w.iter().collect()).collect();
    assert_eq!(parts, vec!["go", "depth", "5"]);
    assert!(split("").is_empty());
    assert!(split(" \t\r\n").is_empty());
    assert_eq!(split("one").len(), 1);
    let trimmed: String = trim(&chars_of("\t e2e4 \n")).iter().collect();
    assert_eq!(trimmed, "e2e4");
    assert!(trim(&chars_of("   ")).is_empty());
}

#[test]
fn numbers_are_read_in_decimal() {
    assert_eq!(number("0"), Some(0));
    assert_eq!(number("6"), Some(6));
    assert_eq!(number("+17"), Some(17));
    assert_eq!(number("-17"), Some(-17));
    assert_eq!(number("007"), Some(7));
    assert_eq!(number("-0"), Some(0));
    assert_eq!(number("2147483647"), Some(i32::MAX));
    assert_eq!(number("-2147483648"), Some(i32::MIN));
    assert_eq!(number("2147483648"), None);
    assert_eq!(number("-2147483649"), None);
    assert_eq!(number("99999999999999999999999999"), None);
    assert_eq!(number(""), None);
    assert_eq!(number("+"), None);
    assert_eq!(number("-"), None);
    assert_eq!(number("1x"), None);
    assert_eq!(number("x1"), None);
    assert_eq!(number("+-1"), None);
    assert_eq!(number("1 "), None);
}

#[test]
fn squares_and_moves_are_refused_when_malformed() {
    assert_eq!(parse_square(""), None);
    assert_eq!(parse_square("e"), None);
    assert_eq!(parse_square("i1"), None);
    assert_eq!(parse_square("a0"), None);
    assert_eq!(parse_square("a9"), None);
    assert_eq!(parse_square("E1"), None);
    assert_eq!(parse_square("e1x"), Some((7, 4)));
    assert_eq!(parse_uci_move("e2e"), None);
    assert_eq!(parse_uci_move("e2e9"), None);
    assert_eq!(parse_uci_move("z2e4"), None);
    assert_eq!(parse_uci_move("a1h8q"), Some(((7, 0), (0, 7))));
}

#[test]
fn the_go_command_sets_the_depth() {
    assert_eq!(parse_go_command(&split("go"), 1, 4), 4);
    assert_eq!(parse_go_command(&split("go depth 6"), 1, 4), 6);
    assert_eq!(parse_go_command(&split("go depth 0"), 1, 4), 1);
    assert_eq!(parse_go_command(&split("go depth 99"), 1, 4), 20);
    assert_eq!(parse_go_command(&split("go depth x"), 1, 4), 4);
    assert_eq!(parse_go_command(&split("go depth"), 1, 4), 4);
    assert_eq!(parse_go_command(&split("go infinite"), 1, 4), 10);
    assert_eq!(parse_go_command(&split("go movetime 1000"), 1, 4), 4);
    assert_eq!(parse_go_command(&split("go movetime depth 3"), 1, 4), 4);
    assert_eq!(parse_go_command(&split("go depth 3 infinite"), 1, 4), 10);
    assert_eq!(parse_go_command(&split("go infinite depth 3"), 1, 4), 3);
    assert_eq!(parse_go_command(&split("go depth depth 7"), 1, 4), 4);
}

#[test]
fn the_position_command_sets_the_board_up() {
    let mut board = Board::new();
    parse_position(&mut board, &split("position startpos"), 1);
    assert_eq!(board.to_fen(), "r3k3/8/8/8/8/8/8/3AK3 w - - 0 1");

    parse_position(&mut board, &split("position startpos moves d1d4 a8a1 zzzz h1h2 e1d1 e1e2"), 1);
    // zzzz names no move, h1h2 starts on an empty square and e1d1 leaves
    // the king in the rook's check: the three are passed over.
    assert_eq!(board.to_fen(), "4k3/8/8/8/3A4/8/4K3/r7 b - - 0 1");
    assert_eq!(board.repetition_count(), 0);

    parse_position(&mut board, &split("position fen 8/8/8/3k4/8/8/8/R3K3 b - - 0 1 moves d5d4"), 1);
    assert_eq!(board.to_fen(), "8/8/8/8/3k4/8/8/R3K3 w - - 0 1");

    // A description that cannot be read falls back to the starting position.
    parse_position(&mut board, &split("position fen 8/8 w"), 1);
    assert_eq!(board.to_fen(), "r3k3/8/8/8/8/8/8/3AK3 w - - 0 1");
    parse_position(&mut board, &split("position fen 8/8/8/8/8/8/8/K7"), 1);
    assert_eq!(board.to_fen(), "8/8/8/8/8/8/8/K7 w - - 0 1");
    parse_position(&mut board, &split("position fen"), 1);
    assert_eq!(board.to_fen(), "r3k3/8/8/8/8/8/8/3AK3 w - - 0 1");

    // Anything else leaves the board alone.
    parse_position(&mut board, &split("position fen 8/8/8/8/8/8/8/K7"), 1);
    parse_position(&mut board, &split("position elsewhere moves a1a2"), 1);
    parse_position(&mut board, &split("position"), 1);
    parse_position(&mut board, &split("position moves a1a2"), 1);
    assert_eq!(board.to_fen(), "8/8/8/8/8/8/8/K7 w - - 0 1");
}

#[test]
fn legality_is_asked_of_the_side_to_move() {
    let mut board = Board::setup_amazon_vs_rook();
    assert!(is_legal(&mut board, (7, 3), (0, 3)));
    assert!(!is_legal(&mut board, (7, 3), (7, 4)));
    assert!(!is_legal(&mut board, (0, 0), (1, 0)));
    assert!(!is_legal(&mut board, (7, 3), (8, 3)));
    board.set_side_to_move(Color::Black);
    assert!(is_legal(&mut board, (0, 0), (1, 0)));
    assert_eq!(board.to_fen(), "r3k3/8/8/8/8/8/8/3AK3 b - - 0 1");
}

#[test]
fn a_session_answers_line_by_line() {
    let mut session = UciSession::new();
    assert_eq!(session.default_depth(), 4);

    let reply = session.handle_line("uci");
    assert_eq!(
        reply.lines,
        vec![
            "id name Amazon-vs-Rook Chess Engine",
            "id author Gingnose",
            "option name UCI_Variant type combo default amazon var amazon",
            "option name Depth type spin default 4 min 1 max 10",
            "uciok",
        ]
    );
    assert!(!reply.quit && reply.log.is_none());

    assert_eq!(session.handle_line("  isready  ").lines, vec!["readyok"]);

    for line in ["", "   ", "hello", "UCI", "go2"] {
        let reply = session.handle_line(line);
        assert!(reply.lines.is_empty() && reply.log.is_none() && !reply.quit);
    }

    let reply = session.handle_line("position startpos moves d1d7");
    assert!(reply.lines.is_empty());
    assert_eq!(session.board().to_fen(), "r3k3/3A4/8/8/8/8/8/4K3 b - - 0 1");

    let reply = session.handle_line("d");
    assert_eq!(reply.log, Some(session.board().display()));
    assert!(reply.lines.is_empty());
    let reply = session.handle_line("display");
    assert_eq!(reply.log, Some(session.board().display()));

    let reply = session.handle_line("ucinewgame");
    assert!(reply.lines.is_empty());
    assert_eq!(session.board().to_fen(), "r3k3/8/8/8/8/8/8/3AK3 w - - 0 1");

    let reply = session.handle_line("quit");
    assert!(reply.quit && reply.lines.is_empty());
}

#[test]
fn the_depth_option_is_held_between_one_and_ten() {
    let mut session = UciSession::new();
    session.handle_line("setoption name Depth value 6");
    assert_eq!(session.default_depth(), 6);
    session.handle_line("setoption name DEPTH value 50");
    assert_eq!(session.default_depth(), 10);
    session.handle_line("setoption name depth value -3");
    assert_eq!(session.default_depth(), 1);
    for line in [
        "setoption name Depth value",
        "setoption name Depth value x",
        "setoption name Hash value 7",
        "setoption Name Depth value 7",
        "setoption name Depth Value 7",
        "setoption",
    ] {
        session.handle_line(line);
        assert_eq!(session.default_depth(), 1);
    }
}

#[test]
fn a_search_answers_with_a_legal_move() {
    let mut session = UciSession::new();
    session.handle_line("position fen k7/2K5/8/8/3A4/8/8/8 w");
    let reply = session.handle_line("go depth 2");
    assert_eq!(reply.lines.len(), 1);
    let answer = reply.lines[0].clone();
    let mv = answer.strip_prefix("bestmove ").expect("a best move is named");
    let (from, to) = parse_uci_move(mv).expect("the move is in coordinate notation");
    let mut board = Board::from_fen(&session.board().to_fen()).expect("own description");
    assert!(is_legal(&mut board, from, to));
    board.make_move(from, to);
    assert!(board.is_checkmate(Color::Black));
    // The search leaves the session's board alone.
    assert_eq!(session.board().to_fen(), "k7/2K5/8/8/3A4/8/8/8 w - - 0 1");

    // Without a legal move there is no move to name.
    session.handle_line("position fen k7/8/KA6/8/8/8/8/8 b");
    assert_eq!(session.handle_line("go").lines, vec!["bestmove 0000"]);
    assert_eq!(session.handle_line("go infinite").lines, vec!["bestmove 0000"]);
}

#[test]
fn the_console_reads_commands_and_moves() {
    for (line, command) in [
        ("quit", Command::Quit),
        ("EXIT\n", Command::Quit),
        (" q ", Command::Quit),
        ("help", Command::Help),
        ("h", Command::Help),
        ("?", Command::Help),
        ("Auto", Command::Auto),
        ("a", Command::Auto),
        ("play", Command::Play),
        ("P", Command::Play),
        ("undo", Command::Undo),
        ("u", Command::Undo),
        ("moves", Command::Moves),
        ("m", Command::Moves),
        ("e2e4", Command::Move((6, 4), (4, 4))),
        (" D1D6\r\n", Command::Move((7, 3), (2, 3))),
        ("", Command::Nothing),
        ("  \n", Command::Nothing),
        ("e2e9", Command::Invalid),
        ("e2e4q", Command::Invalid),
        ("castle", Command::Invalid),
    ] {
        assert_eq!(parse_command(line), command);
    }
    assert_eq!(parse_move("e2e4"), Some(((6, 4), (4, 4))));
    assert_eq!(parse_move("  H8a1 "), Some(((0, 7), (7, 0))));
    assert_eq!(parse_move("e2"), None);
    assert_eq!(parse_move("e2 e4"), None);
    assert_eq!(parse_move("i2e4"), None);
    assert_eq!(parse_move("e0e4"), None);
    assert_eq!(square_to_notation((7, 4)), "e1");
    assert_eq!(square_to_notation((3, 2)), "c5");
}

#[test]
fn the_console_knows_how_the_game_stands() {
    let mut board = Board::setup_amazon_vs_rook();
    assert_eq!(game_state(&mut board), GameState::Playing);

    let mut board = Board::from_fen("k7/8/KA6/8/8/8/8/8 b").expect("eight ranks");
    assert_eq!(game_state(&mut board), GameState::Checkmate);
    board.set_side_to_move(Color::White);
    assert_eq!(game_state(&mut board), GameState::Playing);

    let mut board = Board::from_fen("k7/3A4/1K6/8/8/8/8/8 b").expect("eight ranks");
    assert_eq!(game_state(&mut board), GameState::Stalemate);

    let mut board = Board::from_fen("4k3/8/8/8/8/8/8/4A2K b").expect("eight ranks");
    assert_eq!(game_state(&mut board), GameState::Check);
}
