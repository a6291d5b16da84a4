//! The line-based control protocol: squares and moves in coordinate
//! notation, the commands that set up a position and start a search, and
//! the session that answers one line at a time.

use vstd::prelude::*;
use crate::board::{on_board, Board, Move, Position, Square};
use crate::fen::{board_picture, read_position, run_symbol};
use crate::search::{find_best_move, negamax_value, reply_value};
use crate::text::{
    chars_of, decimal_i32, parse_i32, split_words, spells_ignoring_case, views, word_is,
    word_is_ignoring_case, words,
};

verus! {

/// The letter of a file.
pub open spec fn file_symbol(col: int) -> Seq<char> {
    if col == 0 {
        "a"@
    } else if col == 1 {
        "b"@
    } else if col == 2 {
        "c"@
    } else if col == 3 {
        "d"@
    } else if col == 4 {
        "e"@
    } else if col == 5 {
        "f"@
    } else if col == 6 {
        "g"@
    } else {
        "h"@
    }
}

/// A square in coordinate notation: the letter of its file and the number
/// of its rank, such as `e1` for row 7, column 4.
pub open spec fn square_text(sq: Square) -> Seq<char> {
    file_symbol(sq.1 as int) + run_symbol(8 - sq.0)
}

/// A move in coordinate notation: its two squares, such as `e2e4`.
pub open spec fn move_text(from: Square, to: Square) -> Seq<char> {
    square_text(from) + square_text(to)
}

/// The square that the two characters of `s` from `at` on name: a file from
/// `a` to `h` and a rank from `1` to `8`.
pub open spec fn read_square(s: Seq<char>, at: int) -> Option<Square> {
    if at < 0 || at + 2 > s.len() {
        None
    } else if 'a' <= s[at] <= 'h' && '1' <= s[at + 1] <= '8' {
        Some((('8' as u32 - s[at + 1] as u32) as u8, (s[at] as u32 - 'a' as u32) as u8))
    } else {
        None
    }
}

/// The move that the first four characters of `s` name; what follows them
/// is not read.
pub open spec fn read_move(s: Seq<char>) -> Option<(Square, Square)> {
    if s.len() < 4 {
        None
    } else {
        match (read_square(s, 0), read_square(s, 2)) {
            (Some(from), Some(to)) => Some((from, to)),
            _ => None,
        }
    }
}

/// Writes a square in coordinate notation.
pub fn square_to_uci(square: Square) -> (text: String)
    requires
        on_board(square),
    ensures
        text@ == square_text(square),
{
    let file = match square.1 {
        0 => "a",
        1 => "b",
        2 => "c",
        3 => "d",
        4 => "e",
        5 => "f",
        6 => "g",
        _ => "h",
    };
    let rank = match square.0 {
        0 => "8",
        1 => "7",
        2 => "6",
        3 => "5",
        4 => "4",
        5 => "3",
        6 => "2",
        _ => "1",
    };
    let mut text = String::new();
    text.append(file);
    text.append(rank);
    assert(text@ =~= square_text(square));
    text
}

/// Reads a square at a place of a text.
fn square_at(chars: &Vec<char>, at: usize) -> (square: Option<Square>)
    requires
        at + 2 <= usize::MAX,
    ensures
        square == read_square(chars@, at as int),
{
    if at + 2 > chars.len() {
        return None;
    }
    let file = chars[at];
    let rank = chars[at + 1];
    if 'a' <= file && file <= 'h' && '1' <= rank && rank <= '8' {
        Some((('8' as u32 - rank as u32) as u8, (file as u32 - 'a' as u32) as u8))
    } else {
        None
    }
}

/// Reads a square in coordinate notation from the first two characters of
/// a text.
pub fn parse_square(s: &str) -> (square: Option<Square>)
    ensures
        square == read_square(s@, 0),
        square matches Some(sq) ==> on_board(sq),
{
    let chars = chars_of(s);
    square_at(&chars, 0)
}

/// Reads a move in coordinate notation from a word.
pub fn parse_move_word(chars: &Vec<char>) -> (mv: Option<(Square, Square)>)
    ensures
        mv == read_move(chars@),
        mv matches Some((from, to)) ==> on_board(from) && on_board(to),
{
    if chars.len() < 4 {
        return None;
    }
    match square_at(chars, 0) {
        None => None,
        Some(from) => match square_at(chars, 2) {
            None => None,
            Some(to) => Some((from, to)),
        },
    }
}

/// Reads a move in coordinate notation from the first four characters of a
/// text.
pub fn parse_uci_move(s: &str) -> (mv: Option<(Square, Square)>)
    ensures
        mv == read_move(s@),
        mv matches Some((from, to)) ==> on_board(from) && on_board(to),
{
    let chars = chars_of(s);
    parse_move_word(&chars)
}

/// Writes a move in coordinate notation.
pub fn move_to_uci(from: Square, to: Square) -> (text: String)
    requires
        on_board(from),
        on_board(to),
    ensures
        text@ == move_text(from, to),
{
    let mut text = square_to_uci(from);
    let second = square_to_uci(to);
    text.append(second.as_str());
    text
}

/// The value `v` held between `lo` and `hi`.
pub open spec fn clamped(v: int, lo: int, hi: int) -> int {
    if v < lo {
        lo
    } else if v > hi {
        hi
    } else {
        v
    }
}

/// The depth that the words of a `go` command ask for, read from place `i`
/// on with `depth` the depth so far: `depth` and a number set it, held
/// between 1 and 20; `infinite` sets it to 10; `movetime` and the word
/// behind it are passed over, and so is any other word.
pub open spec fn go_depth(args: Seq<Seq<char>>, i: int, depth: int) -> int
    decreases args.len() - i,
{
    if i < 0 || i >= args.len() {
        depth
    } else if args[i] == "depth"@ {
        if i + 1 < args.len() {
            match decimal_i32(args[i + 1]) {
                Some(d) => go_depth(args, i + 2, clamped(d as int, 1, 20)),
                None => go_depth(args, i + 2, depth),
            }
        } else {
            go_depth(args, i + 1, depth)
        }
    } else if args[i] == "movetime"@ {
        if i + 1 < args.len() {
            go_depth(args, i + 2, depth)
        } else {
            go_depth(args, i + 1, depth)
        }
    } else if args[i] == "infinite"@ {
        go_depth(args, i + 1, 10)
    } else {
        go_depth(args, i + 1, depth)
    }
}

/// The first place at or after `i` at which `args` holds `word`, or the
/// length of `args` if there is none.
pub open spec fn place_of(args: Seq<Seq<char>>, word: Seq<char>, i: int) -> int
    decreases args.len() - i,
{
    if i < 0 || i >= args.len() {
        args.len() as int
    } else if args[i] == word {
        i
    } else {
        place_of(args, word, i + 1)
    }
}

/// The position after the moves that the words from place `i` on name have
/// been played: a word that names no move, or a move that is not legal, is
/// passed over.
pub open spec fn replay(pos: Position, args: Seq<Seq<char>>, i: int) -> Position
    decreases args.len() - i,
{
    if i < 0 || i >= args.len() {
        pos
    } else {
        match read_move(args[i]) {
            Some((from, to)) => if pos.legal(from, to) {
                replay(pos.make_move(from, to), args, i + 1)
            } else {
                replay(pos, args, i + 1)
            },
            None => replay(pos, args, i + 1),
        }
    }
}

/// The position that a `position` command sets up, if it sets one up: the
/// words of the command stand in `args` from place `first` on. `startpos`
/// asks for the starting position; `fen` for the position that the next
/// words describe, up to the word `moves`, and for the starting position
/// where they describe none.
pub open spec fn position_base(args: Seq<Seq<char>>, first: int) -> Option<Position> {
    let moves_at = place_of(args, "moves"@, first);
    if first >= args.len() {
        None
    } else if args[first] == "startpos"@ {
        Some(Position::amazon_vs_rook())
    } else if args[first] == "fen"@ {
        if moves_at > first + 1 {
            let side = if moves_at > first + 2 {
                Some(args[first + 2])
            } else {
                None
            };
            match read_position(args[first + 1], side) {
                Some(described) => Some(described),
                None => Some(Position::amazon_vs_rook()),
            }
        } else {
            Some(Position::amazon_vs_rook())
        }
    } else {
        None
    }
}

/// The position after a `position` command: the position that the command
/// sets up with the moves behind the word `moves` played from it, or the
/// position as it was when the command sets none up.
pub open spec fn position_command(pos: Position, args: Seq<Seq<char>>, first: int) -> Position {
    match position_base(args, first) {
        None => pos,
        Some(base) => replay(base, args, place_of(args, "moves"@, first) + 1),
    }
}

/// Reads the depth that a `go` command asks for; its words stand in `args`
/// from place `first` on.
pub fn parse_go_command(args: &Vec<Vec<char>>, first: usize, default_depth: i32) -> (depth: i32)
    ensures
        depth == go_depth(views(args@), first as int, default_depth as int),
        1 <= default_depth <= 20 ==> 1 <= depth <= 20,
{
    let ghost list = views(args@);
    let mut depth = default_depth;

    let mut i = first;
    while i < args.len()
        invariant
            list == views(args@),
            list.len() == args@.len(),
            first <= i,
            1 <= default_depth <= 20 ==> 1 <= depth <= 20,
            go_depth(list, i as int, depth as int) == go_depth(
                list,
                first as int,
                default_depth as int,
            ),
        decreases args@.len() - i,
    {
        assert(list[i as int] == args@[i as int]@);
        if word_is(&args[i], "depth") {
            if i + 1 < args.len() {
                assert(list[i + 1] == args@[i + 1]@);
                if let Some(d) = parse_i32(&args[i + 1]) {
                    depth = if d < 1 {
                        1
                    } else if d > 20 {
                        20
                    } else {
                        d
                    };
                }
                i += 1;
            }
        } else if word_is(&args[i], "movetime") {
            proof {
                lemma_keywords_differ();
            }
            if i + 1 < args.len() {
                i += 1;
            }
        } else if word_is(&args[i], "infinite") {
            proof {
                lemma_keywords_differ();
            }
            depth = 10;
        }
        i += 1;
    }

    depth
}

/// The words that the commands are told apart by differ from each other.
pub proof fn lemma_keywords_differ()
    ensures
        "depth"@ != "movetime"@,
        "depth"@ != "infinite"@,
        "movetime"@ != "infinite"@,
        "startpos"@ != "fen"@,
{
    reveal_strlit("depth");
    reveal_strlit("movetime");
    reveal_strlit("infinite");
    reveal_strlit("startpos");
    reveal_strlit("fen");
    assert("depth"@.len() == 5);
    assert("movetime"@.len() == 8);
    assert("infinite"@[0] == 'i');
    assert("movetime"@[0] == 'm');
    assert("startpos"@.len() == 8);
    assert("fen"@.len() == 3);
}

/// Finds the first place at or after `from` at which `args` holds `word`.
fn find_word(args: &Vec<Vec<char>>, word: &str, from: usize) -> (place: usize)
    ensures
        place == place_of(views(args@), word@, from as int),
        from <= args@.len() ==> from <= place <= args@.len(),
{
    let ghost list = views(args@);
    let mut i = from;
    while i < args.len()
        invariant
            list == views(args@),
            list.len() == args@.len(),
            from <= i,
            place_of(list, word@, i as int) == place_of(list, word@, from as int),
        decreases args@.len() - i,
    {
        assert(list[i as int] == args@[i as int]@);
        if word_is(&args[i], word) {
            return i;
        }
        i += 1;
    }
    args.len()
}

/// Handles a `position` command, whose words stand in `args` from place
/// `first` on: sets the position up and plays the moves that follow. A
/// command that names no position leaves the board as it is.
pub fn parse_position(board: &mut Board, args: &Vec<Vec<char>>, first: usize)
    ensures
        final(board)@ == position_command(old(board)@, views(args@), first as int),
{
    let ghost list = views(args@);
    assert(list.len() == args@.len());
    if first >= args.len() {
        return ;
    }
    let moves_idx = find_word(args, "moves", first);
    assert(list[first as int] == args@[first as int]@);

    if word_is(&args[first], "startpos") {
        *board = Board::setup_amazon_vs_rook();
        board.clear_history();
    } else if word_is(&args[first], "fen") {
        proof {
            lemma_keywords_differ();
        }
        if moves_idx > first + 1 {
            assert(list[first + 1] == args@[first + 1]@);
            let parsed = if moves_idx > first + 2 {
                assert(list[first + 2] == args@[first + 2]@);
                Board::from_fen_words(&args[first + 1], Some(&args[first + 2]))
            } else {
                Board::from_fen_words(&args[first + 1], None)
            };
            match parsed {
                Some(parsed_board) => {
                    *board = parsed_board;
                    board.clear_history();
                },
                None => {
                    *board = Board::setup_amazon_vs_rook();
                },
            }
        } else {
            *board = Board::setup_amazon_vs_rook();
        }
    } else {
        return ;
    }
    assert(Some(board@) == position_base(list, first as int)) by {
        assert(board@.history =~= Seq::<u64>::empty());
        assert(board@.without_history() == board@);
    }

    if moves_idx < args.len() {
        let ghost base = board@;
        let mut i = moves_idx + 1;
        while i < args.len()
            invariant
                list == views(args@),
                list.len() == args@.len(),
                moves_idx < i,
                replay(board@, list, i as int) == replay(base, list, moves_idx + 1),
            decreases args@.len() - i,
        {
            assert(list[i as int] == args@[i as int]@);
            if let Some((from, to)) = parse_move_word(&args[i]) {
                if is_legal(board, from, to) {
                    board.make_move(from, to);
                }
            }
            i += 1;
        }
    }
}

/// Tells whether the side to move may move from `from` to `to`. The board
/// is left as it was found.
pub fn is_legal(board: &mut Board, from: Square, to: Square) -> (legal: bool)
    ensures
        final(board)@ == old(board)@,
        legal == old(board)@.legal(from, to),
{
    let legal_moves = board.generate_legal_moves();
    let ghost pos = board@;
    for i in 0..legal_moves.len()
        invariant
            board@ == pos,
            old(board)@ == pos,
            forall|mv: Move| #[trigger] legal_moves@.contains(mv) <==> pos.legal_move(mv),
            forall|j: int|
                0 <= j < i ==> !((#[trigger] legal_moves@[j]).from == from && legal_moves@[j].to
                    == to),
    {
        let mv = legal_moves[i];
        if mv.from.0 == from.0 && mv.from.1 == from.1 && mv.to.0 == to.0 && mv.to.1 == to.1 {
            assert(legal_moves@.contains(mv));
            return true;
        }
    }
    proof {
        if pos.legal(from, to) {
            let mv = Move { from, to, captured: pos.piece_at(to) };
            assert(pos.legal_move(mv));
            assert(legal_moves@.contains(mv));
            let j = choose|j: int| 0 <= j < legal_moves@.len() && legal_moves@[j] == mv;
            assert(legal_moves@[j].from == from);
        }
    }
    false
}

/// The views of a list of lines.
pub open spec fn texts(lines: Seq<String>) -> Seq<Seq<char>> {
    Seq::new(lines.len(), |i: int| lines[i]@)
}

/// The lines by which the engine identifies itself.
pub open spec fn identification() -> Seq<Seq<char>> {
    seq![
        "id name Amazon-vs-Rook Chess Engine"@,
        "id author Gingnose"@,
        "option name UCI_Variant type combo default amazon var amazon"@,
        "option name Depth type spin default 4 min 1 max 10"@,
        "uciok"@,
    ]
}

/// The default depth after a `setoption` command with the words `parts`:
/// `setoption name Depth value` and a number set it, held between 1 and
/// 10; anything else leaves it as it is.
pub open spec fn option_depth(depth: int, parts: Seq<Seq<char>>) -> int {
    if parts.len() >= 5 && parts[1] == "name"@ && parts[3] == "value"@ && spells_ignoring_case(
        parts[2],
        "depth"@,
    ) {
        match decimal_i32(parts[4]) {
            Some(d) => clamped(d as int, 1, 10),
            None => depth,
        }
    } else {
        depth
    }
}

/// `line` is an answer to a search of `pos` that is `depth` plies deep:
/// it names a legal move that is worth as much as the position, or no move
/// where there is no legal move.
pub open spec fn answers_search(pos: Position, depth: nat, line: Seq<char>) -> bool {
    if pos.has_legal_move() {
        exists|mv: Move|
            pos.legal_move(mv) && reply_value(pos, depth, mv.from, mv.to) == negamax_value(
                pos,
                depth,
            ) && line == "bestmove "@ + #[trigger] move_text(mv.from, mv.to)
    } else {
        line == "bestmove 0000"@
    }
}

/// What the engine answers to a line: lines for the standard output, a
/// picture of the board for the log, and whether the session is over.
pub struct UciReply {
    pub lines: Vec<String>,
    pub log: Option<String>,
    pub quit: bool,
}

impl UciReply {
    /// The reply says nothing and the session goes on.
    pub open spec fn silent(&self) -> bool {
        self.lines@.len() == 0 && self.log is None && !self.quit
    }

    /// The reply is the given lines and nothing else.
    pub open spec fn says(&self, lines: Seq<Seq<char>>) -> bool {
        texts(self.lines@) == lines && self.log is None && !self.quit
    }
}

/// A session of the protocol: the board and the depth that a search has
/// unless the command says otherwise.
pub struct UciSession {
    board: Board,
    default_depth: i32,
}

impl UciSession {
    /// The position on the board of the session.
    pub closed spec fn position(&self) -> Position {
        self.board@
    }

    /// The default depth of the session.
    pub closed spec fn depth(&self) -> int {
        self.default_depth as int
    }

    /// The default depth lies between 1 and 10.
    pub open spec fn wf(&self) -> bool {
        1 <= self.depth() <= 10
    }

    /// What a line does to a session, and what the engine answers to it.
    pub open spec fn follows(
        before: Self,
        parts: Seq<Seq<char>>,
        after: Self,
        reply: UciReply,
    ) -> bool {
        let same = after.position() == before.position() && after.depth() == before.depth();
        if parts.len() == 0 {
            same && reply.silent()
        } else if parts[0] == "uci"@ {
            same && reply.says(identification())
        } else if parts[0] == "isready"@ {
            same && reply.says(seq!["readyok"@])
        } else if parts[0] == "ucinewgame"@ {
            after.position() == Position::amazon_vs_rook() && after.depth() == before.depth()
                && reply.silent()
        } else if parts[0] == "position"@ {
            after.position() == position_command(before.position(), parts, 1) && after.depth()
                == before.depth() && reply.silent()
        } else if parts[0] == "go"@ {
            same && reply.lines@.len() == 1 && reply.log is None && !reply.quit && answers_search(
                before.position(),
                go_depth(parts, 1, before.depth()) as nat,
                reply.lines@[0]@,
            )
        } else if parts[0] == "setoption"@ {
            after.position() == before.position() && after.depth() == option_depth(
                before.depth(),
                parts,
            ) && reply.silent()
        } else if parts[0] == "d"@ || parts[0] == "display"@ {
            same && reply.lines@.len() == 0 && !reply.quit && (reply.log matches Some(picture)
                && picture@ == board_picture(before.position()))
        } else if parts[0] == "quit"@ {
            same && reply.lines@.len() == 0 && reply.log is None && reply.quit
        } else {
            same && reply.silent()
        }
    }

    /// Starts a session on the starting position with the default depth 4.
    pub fn new() -> (session: Self)
        ensures
            session.wf(),
            session.position() == Position::amazon_vs_rook(),
            session.depth() == 4,
    {
        UciSession { board: Board::setup_amazon_vs_rook(), default_depth: 4 }
    }

    /// The board of the session.
    pub fn board(&self) -> (board: &Board)
        ensures
            board@ == self.position(),
    {
        &self.board
    }

    /// The default depth of the session.
    pub fn default_depth(&self) -> (depth: i32)
        ensures
            depth == self.depth(),
    {
        self.default_depth
    }

    /// Handles one line of input: carries the command out and returns what
    /// is to be answered. An empty line and an unknown command do nothing.
    pub fn handle_line(&mut self, line: &str) -> (reply: UciReply)
        requires
            old(self).wf(),
        ensures
            final(self).wf(),
            Self::follows(*old(self), words(line@), *final(self), reply),
    {
        let chars = chars_of(line);
        let parts = split_words(&chars);
        let ghost list = views(parts@);
        assert(list.len() == parts@.len());
        let mut reply = UciReply { lines: Vec::new(), log: None, quit: false };
        if parts.len() == 0 {
            return reply;
        }
        assert(list[0] == parts@[0]@);

        if word_is(&parts[0], "uci") {
            reply.lines.push(String::from_str("id name Amazon-vs-Rook Chess Engine"));
            reply.lines.push(String::from_str("id author Gingnose"));
            reply.lines.push(
                String::from_str("option name UCI_Variant type combo default amazon var amazon"),
            );
            reply.lines.push(
                String::from_str("option name Depth type spin default 4 min 1 max 10"),
            );
            reply.lines.push(String::from_str("uciok"));
            assert(texts(reply.lines@) =~= identification());
        } else if word_is(&parts[0], "isready") {
            reply.lines.push(String::from_str("readyok"));
            assert(texts(reply.lines@) =~= seq!["readyok"@]);
        } else if word_is(&parts[0], "ucinewgame") {
            self.board = Board::setup_amazon_vs_rook();
            self.board.clear_history();
            assert(self.board@.history =~= Seq::<u64>::empty());
        } else if word_is(&parts[0], "position") {
            parse_position(&mut self.board, &parts, 1);
        } else if word_is(&parts[0], "go") {
            let depth = parse_go_command(&parts, 1, self.default_depth);
            let ghost pos = self.board@;
            let mut answer = String::from_str("bestmove ");
            match find_best_move(&mut self.board, depth) {
                Some((best_move, _score)) => {
                    proof {
                        assert(on_board(best_move.from) && on_board(best_move.to));
                    }
                    let uci_move = move_to_uci(best_move.from, best_move.to);
                    answer.append(uci_move.as_str());
                    assert(pos.legal_move(best_move) && reply_value(
                        pos,
                        depth as nat,
                        best_move.from,
                        best_move.to,
                    ) == negamax_value(pos, depth as nat) && answer@ == "bestmove "@ + move_text(
                        best_move.from,
                        best_move.to,
                    ));
                },
                None => {
                    answer = String::from_str("bestmove 0000");
                },
            }
            reply.lines.push(answer);
        } else if word_is(&parts[0], "setoption") {
            if parts.len() >= 5 {
                assert(list[1] == parts@[1]@ && list[2] == parts@[2]@ && list[3] == parts@[3]@
                    && list[4] == parts@[4]@);
                if word_is(&parts[1], "name") && word_is(&parts[3], "value") {
                    if word_is_ignoring_case(&parts[2], "depth") {
                        if let Some(d) = parse_i32(&parts[4]) {
                            self.default_depth = if d < 1 {
                                1
                            } else if d > 10 {
                                10
                            } else {
                                d
                            };
                        }
                    }
                }
            }
        } else if word_is(&parts[0], "d") || word_is(&parts[0], "display") {
            reply.log = Some(self.board.display());
        } else if word_is(&parts[0], "quit") {
            reply.quit = true;
        }
        reply
    }
}

} // verus!
