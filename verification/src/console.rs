//! What the interactive console decides: how a line of input is read as a
//! command or a move, and how the game stands.

use vstd::prelude::*;
use crate::board::{on_board, Board, Color, Position, Square};
use crate::text::{chars_of, spells_ignoring_case, trim, trimmed, word_is_ignoring_case};
use crate::uci::{square_text, square_to_uci};

verus! {

/// The depth of the searches that the console starts.
pub const SEARCH_DEPTH: i32 = 4;

/// The number of moves after which an automatic game is given up as drawn.
pub const MOVE_LIMIT: u32 = 200;

/// The column that a file letter names, in either case.
pub open spec fn read_file(c: char) -> Option<u8> {
    if 'a' <= c <= 'h' {
        Some((c as u32 - 'a' as u32) as u8)
    } else if 'A' <= c <= 'H' {
        Some((c as u32 - 'A' as u32) as u8)
    } else {
        None
    }
}

/// The row that a rank digit names.
pub open spec fn read_rank(c: char) -> Option<u8> {
    if '1' <= c <= '8' {
        Some(('8' as u32 - c as u32) as u8)
    } else {
        None
    }
}

/// The move that a text of exactly four characters names: two squares,
/// each a file letter in either case and a rank digit.
pub open spec fn read_entered_move(s: Seq<char>) -> Option<(Square, Square)> {
    if s.len() != 4 {
        None
    } else {
        match (read_file(s[0]), read_rank(s[1]), read_file(s[2]), read_rank(s[3])) {
            (Some(from_col), Some(from_row), Some(to_col), Some(to_row)) => Some(
                ((from_row, from_col), (to_row, to_col)),
            ),
            _ => None,
        }
    }
}

/// What a line of input asks for.
#[derive(Copy, Clone, PartialEq, Eq, Debug)]
pub enum Command {
    /// Leave the game.
    Quit,
    /// Show the commands.
    Help,
    /// Let the engine make one move.
    Auto,
    /// Let the engine play both sides to the end.
    Play,
    /// Take the last move back.
    Undo,
    /// List the legal moves.
    Moves,
    /// Make the move between the two squares.
    Move(Square, Square),
    /// Nothing: the line was empty.
    Nothing,
    /// The line was not understood.
    Invalid,
}

/// The command that a line of input spells, white space at its ends and the
/// case of its letters left aside: a command by its name or its short form,
/// then a move, then nothing for an empty line.
pub open spec fn read_command(line: Seq<char>) -> Command {
    let text = trimmed(line);
    if spells_ignoring_case(text, "quit"@) || spells_ignoring_case(text, "exit"@)
        || spells_ignoring_case(text, "q"@) {
        Command::Quit
    } else if spells_ignoring_case(text, "help"@) || spells_ignoring_case(text, "h"@)
        || spells_ignoring_case(text, "?"@) {
        Command::Help
    } else if spells_ignoring_case(text, "auto"@) || spells_ignoring_case(text, "a"@) {
        Command::Auto
    } else if spells_ignoring_case(text, "play"@) || spells_ignoring_case(text, "p"@) {
        Command::Play
    } else if spells_ignoring_case(text, "undo"@) || spells_ignoring_case(text, "u"@) {
        Command::Undo
    } else if spells_ignoring_case(text, "moves"@) || spells_ignoring_case(text, "m"@) {
        Command::Moves
    } else {
        match read_entered_move(text) {
            Some((from, to)) => Command::Move(from, to),
            None => if text.len() == 0 {
                Command::Nothing
            } else {
                Command::Invalid
            },
        }
    }
}

/// Reads a file letter.
fn file_of(c: char) -> (col: Option<u8>)
    ensures
        col == read_file(c),
        col matches Some(v) ==> v < 8,
{
    if 'a' <= c && c <= 'h' {
        Some((c as u32 - 'a' as u32) as u8)
    } else if 'A' <= c && c <= 'H' {
        Some((c as u32 - 'A' as u32) as u8)
    } else {
        None
    }
}

/// Reads a rank digit.
fn rank_of(c: char) -> (row: Option<u8>)
    ensures
        row == read_rank(c),
        row matches Some(v) ==> v < 8,
{
    if '1' <= c && c <= '8' {
        Some(('8' as u32 - c as u32) as u8)
    } else {
        None
    }
}

/// Reads a move from a text of four characters.
fn entered_move(text: &Vec<char>) -> (mv: Option<(Square, Square)>)
    ensures
        mv == read_entered_move(text@),
        mv matches Some((from, to)) ==> on_board(from) && on_board(to),
{
    if text.len() != 4 {
        return None;
    }
    let from_col = file_of(text[0]);
    let from_row = rank_of(text[1]);
    let to_col = file_of(text[2]);
    let to_row = rank_of(text[3]);
    match (from_col, from_row, to_col, to_row) {
        (Some(fc), Some(fr), Some(tc), Some(tr)) => Some(((fr, fc), (tr, tc))),
        _ => None,
    }
}

/// Reads a move as it is entered, such as `e2e4`: two squares, white space
/// at the ends and the case of the letters left aside.
pub fn parse_move(input: &str) -> (mv: Option<(Square, Square)>)
    ensures
        mv == read_entered_move(trimmed(input@)),
        mv matches Some((from, to)) ==> on_board(from) && on_board(to),
{
    let chars = chars_of(input);
    let text = trim(&chars);
    entered_move(&text)
}

/// Writes a square in coordinate notation, such as `e1` for row 7,
/// column 4.
pub fn square_to_notation(square: Square) -> (text: String)
    requires
        on_board(square),
    ensures
        text@ == square_text(square),
{
    square_to_uci(square)
}

/// Reads a line of input as a command.
pub fn parse_command(input: &str) -> (command: Command)
    ensures
        command == read_command(input@),
        command matches Command::Move(from, to) ==> on_board(from) && on_board(to),
{
    let chars = chars_of(input);
    let text = trim(&chars);
    if word_is_ignoring_case(&text, "quit") || word_is_ignoring_case(&text, "exit")
        || word_is_ignoring_case(&text, "q") {
        Command::Quit
    } else if word_is_ignoring_case(&text, "help") || word_is_ignoring_case(&text, "h")
        || word_is_ignoring_case(&text, "?") {
        Command::Help
    } else if word_is_ignoring_case(&text, "auto") || word_is_ignoring_case(&text, "a") {
        Command::Auto
    } else if word_is_ignoring_case(&text, "play") || word_is_ignoring_case(&text, "p") {
        Command::Play
    } else if word_is_ignoring_case(&text, "undo") || word_is_ignoring_case(&text, "u") {
        Command::Undo
    } else if word_is_ignoring_case(&text, "moves") || word_is_ignoring_case(&text, "m") {
        Command::Moves
    } else {
        match entered_move(&text) {
            Some((from, to)) => Command::Move(from, to),
            None => if text.len() == 0 {
                Command::Nothing
            } else {
                Command::Invalid
            },
        }
    }
}

/// How the game stands for the side to move.
#[derive(Copy, Clone, PartialEq, Eq, Debug, Structural)]
pub enum GameState {
    /// The side to move is checkmated and has lost.
    Checkmate,
    /// The side to move is stalemated: a draw.
    Stalemate,
    /// The side to move is in check and has a legal move.
    Check,
    /// The game goes on.
    Playing,
}

/// How the game stands for the side to move in `pos`.
pub open spec fn state_of(pos: Position) -> GameState {
    if pos.checkmate(pos.side_to_move) {
        GameState::Checkmate
    } else if pos.stalemate(pos.side_to_move) {
        GameState::Stalemate
    } else if pos.in_check(pos.side_to_move) {
        GameState::Check
    } else {
        GameState::Playing
    }
}

/// Tells how the game stands for the side to move. The board is left as it
/// was found.
pub fn game_state(board: &mut Board) -> (state: GameState)
    ensures
        final(board)@ == old(board)@,
        state == state_of(old(board)@),
{
    let side = board.side_to_move();
    if board.is_checkmate(side) {
        GameState::Checkmate
    } else if board.is_stalemate(side) {
        GameState::Stalemate
    } else if board.is_in_check(side) {
        GameState::Check
    } else {
        GameState::Playing
    }
}

/// The name of a colour.
pub fn color_name(color: Color) -> (name: &'static str)
    ensures
        name@ == (if color == Color::White {
            "White"@
        } else {
            "Black"@
        }),
{
    match color {
        Color::White => "White",
        Color::Black => "Black",
    }
}

} // verus!
