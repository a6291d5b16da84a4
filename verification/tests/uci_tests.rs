use rust_chess_engine::uci::{move_to_uci, parse_square, parse_uci_move, square_to_uci};

#[test]
fn test_square_to_uci() {
    assert_eq!(square_to_uci((7, 4)), "e1");
    assert_eq!(square_to_uci((0, 0)), "a8");
    assert_eq!(square_to_uci((0, 7)), "h8");
    assert_eq!(square_to_uci((7, 0)), "a1");
}

#[test]
fn test_parse_square() {
    assert_eq!(parse_square("e1"), Some((7, 4)));
    assert_eq!(parse_square("a8"), Some((0, 0)));
    assert_eq!(parse_square("h8"), Some((0, 7)));
    assert_eq!(parse_square("a1"), Some((7, 0)));
}

#[test]
fn test_parse_uci_move() {
    assert_eq!(parse_uci_move("e2e4"), Some(((6, 4), (4, 4))));
    assert_eq!(parse_uci_move("d1d6"), Some(((7, 3), (2, 3))));
}

#[test]
fn test_move_to_uci() {
    assert_eq!(move_to_uci((7, 3), (2, 3)), "d1d6");
    assert_eq!(move_to_uci((6, 4), (4, 4)), "e2e4");
}
