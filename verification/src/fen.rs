//! Boards as text: the one-line description of a position (piece placement
//! rank by rank, then the side to move), read and written, and a picture of
//! the board for people.

use vstd::prelude::*;
use crate::board::{Board, Color, Piece, PieceType, Placement, Position};
use crate::text::{
    char_count, chars_of, count_char, is_space, skip_spaces, skip_word, split_words, views,
    word_is, words, words_from,
};

verus! {

/// The piece that a letter of a placement stands for: `K`, `A`, `R` and `C`
/// for king, amazon, rook and QNC, with `Q` read as an amazon; upper case
/// for White and lower case for Black.
pub open spec fn letter_piece(c: char) -> Option<Piece> {
    if c == 'K' {
        Some(Piece { piece_type: PieceType::King, color: Color::White })
    } else if c == 'k' {
        Some(Piece { piece_type: PieceType::King, color: Color::Black })
    } else if c == 'A' || c == 'Q' {
        Some(Piece { piece_type: PieceType::Amazon, color: Color::White })
    } else if c == 'a' || c == 'q' {
        Some(Piece { piece_type: PieceType::Amazon, color: Color::Black })
    } else if c == 'R' {
        Some(Piece { piece_type: PieceType::Rook, color: Color::White })
    } else if c == 'r' {
        Some(Piece { piece_type: PieceType::Rook, color: Color::Black })
    } else if c == 'C' {
        Some(Piece { piece_type: PieceType::QNC, color: Color::White })
    } else if c == 'c' {
        Some(Piece { piece_type: PieceType::QNC, color: Color::Black })
    } else {
        None
    }
}

/// The number of squares that a character of a placement passes over when
/// it is no piece: a digit from 1 to 8 its value, anything else one.
pub open spec fn squares_passed(c: char) -> int {
    if '1' <= c <= '8' {
        c as u32 - '0' as u32
    } else {
        1
    }
}

/// The placement that a placement word describes, read from place `i` on:
/// `row` and `col` are the square that comes next and `grid` is what has
/// been read so far. A slash starts the next rank; what a rank holds beyond
/// its eighth square is passed over.
pub open spec fn read_placement(
    word: Seq<char>,
    i: int,
    row: int,
    col: int,
    grid: Placement,
) -> Placement
    decreases word.len() - i,
{
    if i < 0 || i >= word.len() {
        grid
    } else if word[i] == '/' {
        read_placement(word, i + 1, row + 1, 0, grid)
    } else if col >= 8 {
        read_placement(word, i + 1, row, col, grid)
    } else {
        match letter_piece(word[i]) {
            Some(piece) => read_placement(
                word,
                i + 1,
                row,
                col + 1,
                grid.with_piece((row as u8, col as u8), Some(piece)),
            ),
            None => read_placement(word, i + 1, row, col + squares_passed(word[i]), grid),
        }
    }
}

/// The side that a side word names: Black for `b` or `B`, White for
/// anything else.
pub open spec fn read_side(word: Seq<char>) -> Color {
    if word == seq!['b'] || word == seq!['B'] {
        Color::Black
    } else {
        Color::White
    }
}

/// The position that a placement word and, if there is one, a side word
/// describe: nothing unless the placement has exactly eight ranks; White to
/// move unless a side word says otherwise; no history.
pub open spec fn read_position(placement: Seq<char>, side: Option<Seq<char>>) -> Option<
    Position,
> {
    if char_count(placement, '/') != 7 {
        None
    } else {
        Some(
            Position {
                placement: read_placement(placement, 0, 0, 0, Placement::empty()),
                side_to_move: match side {
                    Some(word) => read_side(word),
                    None => Color::White,
                },
                history: Seq::empty(),
            },
        )
    }
}

/// The position that a description describes: its first word is the
/// placement and its second, if there is one, the side to move; further
/// words are not read. A description without a word describes nothing.
pub open spec fn parse_fen(text: Seq<char>) -> Option<Position> {
    let parts = words(text);
    if parts.len() == 0 {
        None
    } else if parts.len() == 1 {
        read_position(parts[0], None)
    } else {
        read_position(parts[0], Some(parts[1]))
    }
}

/// The letter of a piece.
pub open spec fn piece_symbol(piece: Piece) -> Seq<char> {
    match piece.color {
        Color::White => match piece.piece_type {
            PieceType::King => "K"@,
            PieceType::Amazon => "A"@,
            PieceType::Rook => "R"@,
            PieceType::QNC => "C"@,
        },
        Color::Black => match piece.piece_type {
            PieceType::King => "k"@,
            PieceType::Amazon => "a"@,
            PieceType::Rook => "r"@,
            PieceType::QNC => "c"@,
        },
    }
}

/// The digit for a run of empty squares; nothing for no run.
pub open spec fn run_symbol(run: int) -> Seq<char> {
    if run == 1 {
        "1"@
    } else if run == 2 {
        "2"@
    } else if run == 3 {
        "3"@
    } else if run == 4 {
        "4"@
    } else if run == 5 {
        "5"@
    } else if run == 6 {
        "6"@
    } else if run == 7 {
        "7"@
    } else if run == 8 {
        "8"@
    } else {
        Seq::empty()
    }
}

/// The description of rank `row` from column `col` on, after a run of `run`
/// empty squares: pieces by their letters, runs of empty squares by their
/// length.
pub open spec fn rank_text(grid: Placement, row: int, col: int, run: int) -> Seq<char>
    decreases 8 - col,
{
    if col < 0 || col >= 8 {
        run_symbol(run)
    } else {
        match grid.piece_at((row as u8, col as u8)) {
            None => rank_text(grid, row, col + 1, run + 1),
            Some(piece) => run_symbol(run) + piece_symbol(piece) + rank_text(grid, row, col + 1, 0),
        }
    }
}

/// The description of the ranks from `row` on, with a slash between two
/// ranks.
pub open spec fn placement_text(grid: Placement, row: int) -> Seq<char>
    decreases 8 - row,
{
    if row < 0 || row >= 8 {
        Seq::empty()
    } else if row == 7 {
        rank_text(grid, row, 0, 0)
    } else {
        rank_text(grid, row, 0, 0) + "/"@ + placement_text(grid, row + 1)
    }
}

/// The description of a position: the placement, the side to move as `w` or
/// `b`, and the four fields that this game does not use.
pub open spec fn fen_text(pos: Position) -> Seq<char> {
    placement_text(pos.placement, 0) + " "@ + (if pos.side_to_move == Color::White {
        "w"@
    } else {
        "b"@
    }) + " - - 0 1"@
}

/// What a square shows in the picture of the board: the letter of its
/// piece, or a dot.
pub open spec fn cell_symbol(cell: Option<Piece>) -> Seq<char> {
    match cell {
        Some(piece) => piece_symbol(piece),
        None => "."@,
    }
}

/// The squares of rank `row` from column `col` on, each followed by a blank.
pub open spec fn picture_cells(grid: Placement, row: int, col: int) -> Seq<char>
    decreases 8 - col,
{
    if col < 0 || col >= 8 {
        Seq::empty()
    } else {
        cell_symbol(grid.piece_at((row as u8, col as u8))) + " "@ + picture_cells(
            grid,
            row,
            col + 1,
        )
    }
}

/// The lines of the ranks from `row` on: the number of the rank, its
/// squares, a bar and the number again.
pub open spec fn picture_rows(grid: Placement, row: int) -> Seq<char>
    decreases 8 - row,
{
    if row < 0 || row >= 8 {
        Seq::empty()
    } else {
        run_symbol(8 - row) + " "@ + picture_cells(grid, row, 0) + "| "@ + run_symbol(8 - row)
            + "\n"@ + picture_rows(grid, row + 1)
    }
}

/// The picture of a position: the files, a border, the eight ranks from
/// Black's back rank down, the border and the files again, an empty line,
/// and the side to move.
pub open spec fn board_picture(pos: Position) -> Seq<char> {
    "  a b c d e f g h\n"@ + "  +-+-+-+-+-+-+-+\n"@ + picture_rows(pos.placement, 0)
        + "  +-+-+-+-+-+-+-+\n"@ + "  a b c d e f g h\n"@ + "\n"@ + "Side to move: "@ + (
    if pos.side_to_move == Color::White {
        "White"@
    } else {
        "Black"@
    }) + "\n"@
}

/// The letter of a piece, as text.
fn piece_letter(piece: Piece) -> (symbol: &'static str)
    ensures
        symbol@ == piece_symbol(piece),
{
    match piece.color {
        Color::White => match piece.piece_type {
            PieceType::King => "K",
            PieceType::Amazon => "A",
            PieceType::Rook => "R",
            PieceType::QNC => "C",
        },
        Color::Black => match piece.piece_type {
            PieceType::King => "k",
            PieceType::Amazon => "a",
            PieceType::Rook => "r",
            PieceType::QNC => "c",
        },
    }
}

/// The digit for a run of empty squares, as text.
fn run_digit(run: u8) -> (symbol: &'static str)
    ensures
        symbol@ == run_symbol(run as int),
{
    proof {
        reveal_strlit("");
        assert(""@ =~= Seq::<char>::empty());
    }
    match run {
        1 => "1",
        2 => "2",
        3 => "3",
        4 => "4",
        5 => "5",
        6 => "6",
        7 => "7",
        8 => "8",
        _ => "",
    }
}

impl Board {
    /// Reads a board from a placement word and, if there is one, a side
    /// word. Nothing is returned unless the placement has exactly eight
    /// ranks.
    pub fn from_fen_words(placement: &Vec<char>, side: Option<&Vec<char>>) -> (board: Option<
        Self,
    >)
        ensures
            match board {
                Some(b) => read_position(
                    placement@,
                    match side {
                        Some(word) => Some(word@),
                        None => None,
                    },
                ) == Some(b@),
                None => read_position(
                    placement@,
                    match side {
                        Some(word) => Some(word@),
                        None => None,
                    },
                ) is None,
            },
    {
        if count_char(placement, '/') != 7 {
            return None;
        }
        let ghost word = placement@;
        let mut board = Board::new();
        let mut row: u8 = 0;
        let mut col: u8 = 0;

        for i in 0..placement.len()
            invariant
                word == placement@,
                char_count(word, '/') == 7,
                row == char_count(word.take(i as int), '/'),
                row <= 7,
                col <= 15,
                board@.side_to_move == Color::White,
                board@.history == Seq::<u64>::empty(),
                read_placement(word, i as int, row as int, col as int, board@.placement)
                    == read_placement(word, 0, 0, 0, Placement::empty()),
        {
            let c = placement[i];
            proof {
                assert(word.take(i + 1).drop_last() =~= word.take(i as int));
                lemma_count_grows(word, i + 1);
            }
            if c == '/' {
                row += 1;
                col = 0;
            } else if col < 8 {
                if '1' <= c && c <= '8' {
                    col += (c as u32 - '0' as u32) as u8;
                } else if c == 'K' {
                    board.set_piece((row, col), Some(Piece::new(PieceType::King, Color::White)));
                    col += 1;
                } else if c == 'k' {
                    board.set_piece((row, col), Some(Piece::new(PieceType::King, Color::Black)));
                    col += 1;
                } else if c == 'A' || c == 'Q' {
                    board.set_piece((row, col), Some(Piece::new(PieceType::Amazon, Color::White)));
                    col += 1;
                } else if c == 'a' || c == 'q' {
                    board.set_piece((row, col), Some(Piece::new(PieceType::Amazon, Color::Black)));
                    col += 1;
                } else if c == 'R' {
                    board.set_piece((row, col), Some(Piece::new(PieceType::Rook, Color::White)));
                    col += 1;
                } else if c == 'r' {
                    board.set_piece((row, col), Some(Piece::new(PieceType::Rook, Color::Black)));
                    col += 1;
                } else if c == 'C' {
                    board.set_piece((row, col), Some(Piece::new(PieceType::QNC, Color::White)));
                    col += 1;
                } else if c == 'c' {
                    board.set_piece((row, col), Some(Piece::new(PieceType::QNC, Color::Black)));
                    col += 1;
                } else {
                    col += 1;
                }
            }
        }

        if let Some(word) = side {
            if word_is(word, "b") || word_is(word, "B") {
                proof {
                    reveal_strlit("b");
                    reveal_strlit("B");
                    assert("b"@ =~= seq!['b']);
                    assert("B"@ =~= seq!['B']);
                }
                board.set_side_to_move(Color::Black);
            } else {
                proof {
                    reveal_strlit("b");
                    reveal_strlit("B");
                    assert("b"@ =~= seq!['b']);
                    assert("B"@ =~= seq!['B']);
                }
            }
        }

        Some(board)
    }

    /// Reads a board from its description, such as
    /// `r3k3/8/8/8/8/8/8/3AK3 w - - 0 1`: the first word is the placement,
    /// the second the side to move. Nothing is returned when there is no
    /// word or the placement has not exactly eight ranks.
    pub fn from_fen(fen: &str) -> (board: Option<Self>)
        ensures
            match board {
                Some(b) => parse_fen(fen@) == Some(b@),
                None => parse_fen(fen@) is None,
            },
    {
        let chars = chars_of(fen);
        let parts = split_words(&chars);
        proof {
            assert(views(parts@).len() == parts@.len());
            if parts@.len() > 0 {
                assert(views(parts@)[0] == parts@[0]@);
            }
            if parts@.len() > 1 {
                assert(views(parts@)[1] == parts@[1]@);
            }
        }
        if parts.len() == 0 {
            return None;
        }
        if parts.len() > 1 {
            Board::from_fen_words(&parts[0], Some(&parts[1]))
        } else {
            Board::from_fen_words(&parts[0], None)
        }
    }

    /// Writes the description of the board.
    pub fn to_fen(&self) -> (fen: String)
        ensures
            fen@ == fen_text(self@),
    {
        let mut fen = String::new();
        let ghost grid = self@.placement;

        for row in 0..8u8
            invariant
                grid == self@.placement,
                fen@ + placement_text(grid, row as int) == placement_text(grid, 0),
        {
            let ghost done = fen@;
            let mut empty_count: u8 = 0;
            for col in 0..8u8
                invariant
                    row < 8,
                    grid == self@.placement,
                    empty_count <= col,
                    fen@ + rank_text(grid, row as int, col as int, empty_count as int) == done
                        + rank_text(grid, row as int, 0, 0),
            {
                let ghost before = fen@;
                match self.get_piece((row, col)) {
                    None => {
                        empty_count += 1;
                    },
                    Some(piece) => {
                        if empty_count > 0 {
                            fen.append(run_digit(empty_count));
                        }
                        fen.append(piece_letter(piece));
                        proof {
                            assert(fen@ + rank_text(grid, row as int, col + 1, 0) =~= before
                                + rank_text(grid, row as int, col as int, empty_count as int));
                        }
                        empty_count = 0;
                    },
                }
            }
            let ghost before = fen@;
            if empty_count > 0 {
                fen.append(run_digit(empty_count));
            }
            if row < 7 {
                fen.append("/");
            }
            proof {
                assert(fen@ + placement_text(grid, row + 1) =~= done + placement_text(
                    grid,
                    row as int,
                ));
            }
        }

        fen.append(" ");
        if self.side_to_move() == Color::White {
            fen.append("w");
        } else {
            fen.append("b");
        }
        fen.append(" - - 0 1");
        proof {
            assert(fen@ =~= fen_text(self@));
        }
        fen
    }
}

impl Board {
    /// Draws the board as text.
    pub fn display(&self) -> (picture: String)
        ensures
            picture@ == board_picture(self@),
    {
        let mut picture = String::new();
        let ghost grid = self@.placement;
        picture.append("  a b c d e f g h\n");
        picture.append("  +-+-+-+-+-+-+-+\n");
        let ghost top = picture@;

        for row in 0..8u8
            invariant
                grid == self@.placement,
                picture@ + picture_rows(grid, row as int) == top + picture_rows(grid, 0),
        {
            let ghost done = picture@;
            picture.append(run_digit(8 - row));
            picture.append(" ");
            let ghost label = picture@;

            for col in 0..8u8
                invariant
                    row < 8,
                    grid == self@.placement,
                    picture@ + picture_cells(grid, row as int, col as int) == label
                        + picture_cells(grid, row as int, 0),
            {
                let ghost before = picture@;
                match self.get_piece((row, col)) {
                    None => {
                        picture.append(".");
                    },
                    Some(piece) => {
                        picture.append(piece_letter(piece));
                    },
                }
                picture.append(" ");
                proof {
                    assert(picture@ + picture_cells(grid, row as int, col + 1) =~= before
                        + picture_cells(grid, row as int, col as int));
                }
            }
            picture.append("| ");
            picture.append(run_digit(8 - row));
            picture.append("\n");
            proof {
                assert(picture@ + picture_rows(grid, row + 1) =~= done + picture_rows(
                    grid,
                    row as int,
                ));
            }
        }

        picture.append("  +-+-+-+-+-+-+-+\n");
        picture.append("  a b c d e f g h\n");
        picture.append("\n");
        picture.append("Side to move: ");
        if self.side_to_move() == Color::White {
            picture.append("White");
        } else {
            picture.append("Black");
        }
        picture.append("\n");
        proof {
            assert(picture@ =~= board_picture(self@));
        }
        picture
    }
}

/// A count of a character grows by at most one with each place.
pub proof fn lemma_count_grows(s: Seq<char>, n: int)
    requires
        0 <= n <= s.len(),
    ensures
        char_count(s.take(n), '/') <= char_count(s, '/'),
        n > 0 ==> char_count(s.take(n), '/') == char_count(s.take(n - 1), '/') + if s[n - 1]
            == '/' {
            1nat
        } else {
            0nat
        },
    decreases s.len() - n,
{
    if n > 0 {
        assert(s.take(n).drop_last() =~= s.take(n - 1));
    }
    if n < s.len() {
        lemma_count_grows(s, n + 1);
        assert(s.take(n + 1).drop_last() =~= s.take(n));
    } else {
        assert(s.take(n) =~= s);
    }
}

/// The placement that holds the first `n` cells of `grid` and nothing
/// behind them.
pub open spec fn first_cells(grid: Placement, n: int) -> Placement {
    Placement {
        cells: Seq::new(
            64,
            |i: int|
                if i < n {
                    grid.cells[i]
                } else {
                    None
                },
        ),
    }
}

/// What the symbols of the descriptions spell.
pub proof fn lemma_symbols()
    ensures
        "K"@ == seq!['K'],
        "A"@ == seq!['A'],
        "R"@ == seq!['R'],
        "C"@ == seq!['C'],
        "k"@ == seq!['k'],
        "a"@ == seq!['a'],
        "r"@ == seq!['r'],
        "c"@ == seq!['c'],
        "1"@ == seq!['1'],
        "2"@ == seq!['2'],
        "3"@ == seq!['3'],
        "4"@ == seq!['4'],
        "5"@ == seq!['5'],
        "6"@ == seq!['6'],
        "7"@ == seq!['7'],
        "8"@ == seq!['8'],
        "/"@ == seq!['/'],
        " "@ == seq![' '],
        "w"@ == seq!['w'],
        "b"@ == seq!['b'],
        " - - 0 1"@ == seq![' ', '-', ' ', '-', ' ', '0', ' ', '1'],
{
    reveal_strlit("K");
    reveal_strlit("A");
    reveal_strlit("R");
    reveal_strlit("C");
    reveal_strlit("k");
    reveal_strlit("a");
    reveal_strlit("r");
    reveal_strlit("c");
    reveal_strlit("1");
    reveal_strlit("2");
    reveal_strlit("3");
    reveal_strlit("4");
    reveal_strlit("5");
    reveal_strlit("6");
    reveal_strlit("7");
    reveal_strlit("8");
    reveal_strlit("/");
    reveal_strlit(" ");
    reveal_strlit("w");
    reveal_strlit("b");
    reveal_strlit(" - - 0 1");
    assert("K"@ =~= seq!['K']);
    assert("A"@ =~= seq!['A']);
    assert("R"@ =~= seq!['R']);
    assert("C"@ =~= seq!['C']);
    assert("k"@ =~= seq!['k']);
    assert("a"@ =~= seq!['a']);
    assert("r"@ =~= seq!['r']);
    assert("c"@ =~= seq!['c']);
    assert("1"@ =~= seq!['1']);
    assert("2"@ =~= seq!['2']);
    assert("3"@ =~= seq!['3']);
    assert("4"@ =~= seq!['4']);
    assert("5"@ =~= seq!['5']);
    assert("6"@ =~= seq!['6']);
    assert("7"@ =~= seq!['7']);
    assert("8"@ =~= seq!['8']);
    assert("/"@ =~= seq!['/']);
    assert(" "@ =~= seq![' ']);
    assert("w"@ =~= seq!['w']);
    assert("b"@ =~= seq!['b']);
    assert(" - - 0 1"@ =~= seq![' ', '-', ' ', '-', ' ', '0', ' ', '1']);
}

/// The symbol of a piece is one letter, and the letter reads as the piece.
pub proof fn lemma_piece_symbol(piece: Piece)
    ensures
        piece_symbol(piece).len() == 1,
        letter_piece(piece_symbol(piece)[0]) == Some(piece),
        piece_symbol(piece)[0] != '/',
        !is_space(piece_symbol(piece)[0]),
{
    lemma_symbols();
}

/// The symbol of a run of one to eight squares is one digit, and the digit
/// passes over as many squares.
pub proof fn lemma_run_symbol(run: int)
    requires
        1 <= run <= 8,
    ensures
        run_symbol(run).len() == 1,
        letter_piece(run_symbol(run)[0]) is None,
        squares_passed(run_symbol(run)[0]) == run,
        run_symbol(run)[0] != '/',
        !is_space(run_symbol(run)[0]),
{
    lemma_symbols();
}

/// Reading from a place on is reading what stands from that place on.
pub proof fn lemma_read_shift(word: Seq<char>, i: int, row: int, col: int, grid: Placement)
    requires
        0 <= i <= word.len(),
    ensures
        read_placement(word, i, row, col, grid) == read_placement(
            word.skip(i),
            0,
            row,
            col,
            grid,
        ),
    decreases word.len() - i,
{
    let rest = word.skip(i);
    if i < word.len() {
        assert(rest[0] == word[i]);
        assert(rest.skip(1) =~= word.skip(i + 1));
        let c = word[i];
        if c == '/' {
            lemma_read_shift(word, i + 1, row + 1, 0, grid);
            lemma_read_shift(rest, 1, row + 1, 0, grid);
        } else if col >= 8 {
            lemma_read_shift(word, i + 1, row, col, grid);
            lemma_read_shift(rest, 1, row, col, grid);
        } else {
            match letter_piece(c) {
                Some(piece) => {
                    let next = grid.with_piece((row as u8, col as u8), Some(piece));
                    lemma_read_shift(word, i + 1, row, col + 1, next);
                    lemma_read_shift(rest, 1, row, col + 1, next);
                },
                None => {
                    lemma_read_shift(word, i + 1, row, col + squares_passed(c), grid);
                    lemma_read_shift(rest, 1, row, col + squares_passed(c), grid);
                },
            }
        }
    }
}

/// Reading the description of a rank fills the rank in: the squares that
/// the description covers are read as they stand in `grid`.
pub proof fn lemma_read_rank(grid: Placement, row: int, col: int, run: int, rest: Seq<char>)
    requires
        grid.wf(),
        0 <= row < 8,
        0 <= col <= 8,
        0 <= run <= col,
    ensures
        read_placement(
            rank_text(grid, row, col, run) + rest,
            0,
            row,
            col - run,
            first_cells(grid, row * 8 + col),
        ) == read_placement(rest, 0, row, 8, first_cells(grid, row * 8 + 8)),
    decreases 8 - col,
{
    let so_far = first_cells(grid, row * 8 + col);
    let text = rank_text(grid, row, col, run) + rest;
    if col == 8 {
        if run == 0 {
            assert(text =~= rest);
        } else {
            lemma_run_symbol(run);
            assert(text[0] == run_symbol(run)[0]);
            assert(text.skip(1) =~= rest);
            lemma_read_shift(text, 1, row, 8, so_far);
        }
    } else {
        match grid.piece_at((row as u8, col as u8)) {
            None => {
                assert(so_far.cells =~= first_cells(grid, row * 8 + col + 1).cells);
                lemma_read_rank(grid, row, col + 1, run + 1, rest);
            },
            Some(piece) => {
                lemma_piece_symbol(piece);
                let tail = rank_text(grid, row, col + 1, 0) + rest;
                let from_piece = piece_symbol(piece) + tail;
                let placed = so_far.with_piece((row as u8, col as u8), Some(piece));
                assert(placed.cells =~= first_cells(grid, row * 8 + col + 1).cells);
                // The run of empty squares before the piece.
                if run == 0 {
                    assert(text =~= from_piece);
                } else {
                    lemma_run_symbol(run);
                    assert(text[0] == run_symbol(run)[0]);
                    assert(text.skip(1) =~= from_piece);
                    lemma_read_shift(text, 1, row, col, so_far);
                }
                // The piece.
                assert(from_piece[0] == piece_symbol(piece)[0]);
                assert(from_piece.skip(1) =~= tail);
                lemma_read_shift(from_piece, 1, row, col + 1, placed);
                // The rest of the rank.
                lemma_read_rank(grid, row, col + 1, 0, rest);
            },
        }
    }
}

/// Reading the description of the ranks from `row` on fills them in.
pub proof fn lemma_read_ranks(grid: Placement, row: int)
    requires
        grid.wf(),
        0 <= row < 8,
    ensures
        read_placement(placement_text(grid, row), 0, row, 0, first_cells(grid, row * 8)) == grid,
    decreases 8 - row,
{
    if row == 7 {
        let none = Seq::<char>::empty();
        lemma_read_rank(grid, row, 0, 0, none);
        assert(rank_text(grid, row, 0, 0) + none =~= placement_text(grid, row));
        assert(first_cells(grid, 64).cells =~= grid.cells);
    } else {
        lemma_symbols();
        let rest = "/"@ + placement_text(grid, row + 1);
        lemma_read_rank(grid, row, 0, 0, rest);
        assert(rank_text(grid, row, 0, 0) + rest =~= placement_text(grid, row));
        assert(rest[0] == '/');
        assert(rest.skip(1) =~= placement_text(grid, row + 1));
        lemma_read_shift(rest, 1, row + 1, 0, first_cells(grid, row * 8 + 8));
        lemma_read_ranks(grid, row + 1);
    }
}

/// A character occurs in two texts joined as often as in the one and in the
/// other.
pub proof fn lemma_count_joined(a: Seq<char>, b: Seq<char>, c: char)
    ensures
        char_count(a + b, c) == char_count(a, c) + char_count(b, c),
    decreases b.len(),
{
    if b.len() == 0 {
        assert(a + b =~= a);
    } else {
        assert((a + b).drop_last() =~= a + b.drop_last());
        assert((a + b).last() == b.last());
        lemma_count_joined(a, b.drop_last(), c);
    }
}

/// One character holds itself once and no other character.
pub proof fn lemma_count_single(x: char, c: char)
    ensures
        char_count(seq![x], c) == if x == c {
            1nat
        } else {
            0nat
        },
{
    assert(seq![x].drop_last() =~= Seq::<char>::empty());
    assert(seq![x].last() == x);
    assert(char_count(Seq::<char>::empty(), c) == 0);
}

/// The description of a rank holds no slash and no white space, and is not
/// empty when it covers a square or ends a run.
pub proof fn lemma_rank_text_is_plain(grid: Placement, row: int, col: int, run: int)
    requires
        0 <= col <= 8,
        0 <= run <= col,
    ensures
        char_count(rank_text(grid, row, col, run), '/') == 0,
        forall|i: int|
            0 <= i < rank_text(grid, row, col, run).len() ==> !is_space(
                #[trigger] rank_text(grid, row, col, run)[i],
            ),
        col < 8 || run > 0 ==> rank_text(grid, row, col, run).len() > 0,
    decreases 8 - col,
{
    let none = Seq::<char>::empty();
    assert(char_count(none, '/') == 0);
    if col == 8 {
        if run > 0 {
            lemma_run_symbol(run);
            assert(run_symbol(run) =~= seq![run_symbol(run)[0]]);
            lemma_count_single(run_symbol(run)[0], '/');
        }
    } else {
        match grid.piece_at((row as u8, col as u8)) {
            None => {
                lemma_rank_text_is_plain(grid, row, col + 1, run + 1);
            },
            Some(piece) => {
                lemma_rank_text_is_plain(grid, row, col + 1, 0);
                lemma_piece_symbol(piece);
                let symbol = piece_symbol(piece);
                let tail = rank_text(grid, row, col + 1, 0);
                assert(symbol =~= seq![symbol[0]]);
                lemma_count_single(symbol[0], '/');
                lemma_count_joined(run_symbol(run), symbol, '/');
                lemma_count_joined(run_symbol(run) + symbol, tail, '/');
                if run > 0 {
                    lemma_run_symbol(run);
                    assert(run_symbol(run) =~= seq![run_symbol(run)[0]]);
                    lemma_count_single(run_symbol(run)[0], '/');
                } else {
                    assert(run_symbol(run) =~= none);
                }
            },
        }
    }
}

/// The description of the ranks from `row` on holds a slash between each
/// two of them, no white space, and is not empty.
pub proof fn lemma_placement_text_is_plain(grid: Placement, row: int)
    requires
        0 <= row < 8,
    ensures
        char_count(placement_text(grid, row), '/') == 7 - row,
        forall|i: int|
            0 <= i < placement_text(grid, row).len() ==> !is_space(
                #[trigger] placement_text(grid, row)[i],
            ),
        placement_text(grid, row).len() > 0,
    decreases 8 - row,
{
    lemma_rank_text_is_plain(grid, row, 0, 0);
    if row < 7 {
        lemma_symbols();
        lemma_placement_text_is_plain(grid, row + 1);
        let rank = rank_text(grid, row, 0, 0);
        let rest = placement_text(grid, row + 1);
        lemma_count_single('/', '/');
        lemma_count_joined(rank, "/"@, '/');
        lemma_count_joined(rank + "/"@, rest, '/');
    }
}

/// A word ends where the white space begins.
pub proof fn lemma_word_ends(s: Seq<char>, from: int, to: int)
    requires
        0 <= from <= to <= s.len(),
        forall|i: int| from <= i < to ==> !is_space(#[trigger] s[i]),
        to < s.len() ==> is_space(s[to]),
    ensures
        skip_word(s, from) == to,
    decreases to - from,
{
    if from < to {
        lemma_word_ends(s, from + 1, to);
    }
}

/// Reading back what was written: the description of a position describes
/// its placement and its side to move, with no history.
pub proof fn lemma_fen_round_trip(pos: Position)
    requires
        pos.wf(),
    ensures
        parse_fen(fen_text(pos)) == Some(
            Position {
                placement: pos.placement,
                side_to_move: pos.side_to_move,
                history: Seq::empty(),
            },
        ),
{
    lemma_symbols();
    let grid = pos.placement;
    let placement = placement_text(grid, 0);
    let side = if pos.side_to_move == Color::White {
        "w"@
    } else {
        "b"@
    };
    let text = fen_text(pos);
    let n = placement.len() as int;
    lemma_placement_text_is_plain(grid, 0);
    assert(text.len() == n + 10);
    assert forall|i: int| 0 <= i < n implies text[i] == placement[i] by {}
    assert(text[n] == ' ');
    assert(text[n + 1] == side[0]);
    assert(text[n + 2] == ' ');

    // The first word is the placement.
    assert(!is_space(text[0]));
    assert(skip_spaces(text, 0) == 0);
    lemma_word_ends(text, 0, n);
    assert(text.subrange(0, n) =~= placement);

    // The second word is the side to move.
    assert(skip_spaces(text, n + 1) == n + 1);
    assert(skip_spaces(text, n) == n + 1);
    lemma_word_ends(text, n + 1, n + 2);
    assert(text.subrange(n + 1, n + 2) =~= side);

    let later = words_from(text, n + 2);
    assert(words_from(text, n) == seq![side] + later);
    assert(words(text) == seq![placement] + (seq![side] + later));
    assert(words(text).len() >= 2);
    assert(words(text)[0] == placement);
    assert(words(text)[1] == side);

    // The placement reads back as it stands.
    assert(first_cells(grid, 0).cells =~= Placement::empty().cells);
    lemma_read_ranks(grid, 0);
}

} // verus!
