//! The board, its pieces and moves, and the mathematical position that the
//! contracts of this crate speak about.

use vstd::prelude::*;
use crate::pieces::amazon::AmazonMoves;
use crate::pieces::king::KingMoves;
use crate::pieces::qnc::QncMoves;
use crate::pieces::rook::RookMoves;
use crate::pieces::{
    camel_reaches, king_reaches, king_step, knight_reaches, queen_reaches, rook_reaches,
};
use crate::squares::{
    count_squares, indicator, lemma_count_distinct, lemma_square_index_round_trip,
    lemma_sum_bounds, lemma_sum_differs_at_two, sum_squares,
};

verus! {

/// A square as (row, column), both in 0..8.
/// Row 0 is rank 8 (Black's back rank), row 7 is rank 1 (White's back rank);
/// column 0 is file a, column 7 is file h.
pub type Square = (u8, u8);

/// Colour of a piece, or of the side to move.
#[derive(Copy, Clone, PartialEq, Eq, Debug, Structural)]
pub enum Color {
    White,
    Black,
}

impl Color {
    /// The other colour.
    pub open spec fn other(&self) -> Color {
        match *self {
            Color::White => Color::Black,
            Color::Black => Color::White,
        }
    }

    /// Returns the opposite colour: the other one, whose opposite is this
    /// colour again.
    #[verifier::when_used_as_spec(other)]
    pub fn opposite(&self) -> (c: Color)
        ensures
            c == self.other(),
            c != *self,
            c.other() == *self,
    {
        match self {
            Color::White => Color::Black,
            Color::Black => Color::White,
        }
    }
}

/// Kind of a piece. Every kind is a union of movement primitives:
/// the king's single step, queen-like slides, rook-like slides,
/// the knight's leap and the camel's leap.
#[derive(Copy, Clone, PartialEq, Eq, Debug, Structural)]
pub enum PieceType {
    /// One step in any of the eight directions.
    King,
    /// Queen and knight combined.
    Amazon,
    /// Slides along ranks and files.
    Rook,
    /// Queen, knight and camel combined.
    QNC,
}

/// The movement primitives that a kind of piece is made of.
pub struct Capabilities {
    /// One step in any of the eight directions.
    pub king_step: bool,
    /// Slides along ranks and files.
    pub rook_slide: bool,
    /// Slides along ranks, files and diagonals.
    pub queen_slide: bool,
    /// The knight's leap: two along one axis and one along the other.
    pub knight_leap: bool,
    /// The camel's leap: three along one axis and one along the other.
    pub camel_leap: bool,
}

impl PieceType {
    /// Whether the kind is a compound of the queen and the knight, with or
    /// without more.
    pub open spec fn compound(&self) -> bool {
        self.composition().queen_slide && self.composition().knight_leap
    }

    /// Tells whether the kind is a compound piece: an amazon or a QNC.
    #[verifier::when_used_as_spec(compound)]
    pub fn is_compound(&self) -> (compound: bool)
        ensures
            compound == self.compound(),
    {
        match self {
            PieceType::Amazon => true,
            PieceType::QNC => true,
            PieceType::King => false,
            PieceType::Rook => false,
        }
    }

    /// The movement primitives of each kind.
    pub open spec fn composition(&self) -> Capabilities {
        match *self {
            PieceType::King => Capabilities {
                king_step: true,
                rook_slide: false,
                queen_slide: false,
                knight_leap: false,
                camel_leap: false,
            },
            PieceType::Amazon => Capabilities {
                king_step: false,
                rook_slide: false,
                queen_slide: true,
                knight_leap: true,
                camel_leap: false,
            },
            PieceType::Rook => Capabilities {
                king_step: false,
                rook_slide: true,
                queen_slide: false,
                knight_leap: false,
                camel_leap: false,
            },
            PieceType::QNC => Capabilities {
                king_step: false,
                rook_slide: false,
                queen_slide: true,
                knight_leap: true,
                camel_leap: true,
            },
        }
    }
}

/// A piece: a kind and a colour, with no identity beyond the two.
#[derive(Copy, Clone, PartialEq, Eq, Debug, Structural)]
pub struct Piece {
    pub piece_type: PieceType,
    pub color: Color,
}

impl Piece {
    /// Creates a piece of the given kind and colour.
    pub fn new(piece_type: PieceType, color: Color) -> (p: Self)
        ensures
            p == (Piece { piece_type, color }),
    {
        Piece { piece_type, color }
    }
}

/// A move, with what it needs to be taken back: the piece, if any, that stood
/// on the destination square before the move was made.
#[derive(Copy, Clone, Debug)]
pub struct Move {
    pub from: Square,
    pub to: Square,
    pub captured: Option<Piece>,
}

impl Move {
    /// A move from `from` to `to` that captures nothing.
    pub fn new(from: Square, to: Square) -> (mv: Self)
        ensures
            mv == (Move { from, to, captured: None }),
    {
        Move { from, to, captured: None }
    }
}

/// Whether both coordinates of a square lie on the board.
pub open spec fn on_board(sq: Square) -> bool {
    sq.0 < 8 && sq.1 < 8
}

/// Position of a square in row-major order.
pub open spec fn square_index(sq: Square) -> int {
    sq.0 * 8 + sq.1
}

/// The square at a position in row-major order.
pub open spec fn square_of_index(i: int) -> Square {
    ((i / 8) as u8, (i % 8) as u8)
}

/// How often `value` occurs in `s`.
pub open spec fn occurrences(s: Seq<u64>, value: u64) -> nat
    decreases s.len(),
{
    if s.len() == 0 {
        0
    } else {
        occurrences(s.drop_last(), value) + if s.last() == value {
            1nat
        } else {
            0nat
        }
    }
}

/// What a sequence holds after a push, and that a push of a new element
/// keeps a sequence free of duplicates.
pub proof fn lemma_push_contains<T>(s: Seq<T>, x: T)
    ensures
        forall|y: T| #[trigger] s.push(x).contains(y) <==> s.contains(y) || y == x,
        s.no_duplicates() && !s.contains(x) ==> s.push(x).no_duplicates(),
{
    assert forall|y: T| #[trigger] s.push(x).contains(y) <==> s.contains(y) || y == x by {
        if s.contains(y) {
            let i = choose|i: int| 0 <= i < s.len() && s[i] == y;
            assert(s.push(x)[i] == y);
        }
        if y == x {
            assert(s.push(x)[s.len() as int] == y);
        }
    }
}

/// The pieces that are equal to `piece`.
pub open spec fn same_as(piece: Piece) -> spec_fn(Piece) -> bool {
    |p: Piece| p == piece
}

/// Which piece stands on which square: 64 cells in row-major order.
pub struct Placement {
    pub cells: Seq<Option<Piece>>,
}

/// The mathematical state of a board: the placement of the pieces, the side
/// to move, and the hashes of the positions that the moves made so far left
/// behind, oldest first.
pub struct Position {
    pub placement: Placement,
    pub side_to_move: Color,
    pub history: Seq<u64>,
}

/// The multiplier that folds one more occupied square into a position hash.
pub const HASH_MULTIPLIER: u64 = 0x517cc1b727220a95;

/// The mask that a position hash is flipped by when Black is to move.
pub const BLACK_TO_MOVE_MASK: u64 = 0xF0F0F0F0F0F0F0F0;

/// The number that stands for a piece in a position hash.
pub open spec fn piece_code(piece: Piece) -> u64 {
    let kind: u64 = match piece.piece_type {
        PieceType::King => 1,
        PieceType::Amazon => 2,
        PieceType::Rook => 3,
        PieceType::QNC => 4,
    };
    let side: u64 = match piece.color {
        Color::White => 0,
        Color::Black => 64,
    };
    ((kind + side) * 31) as u64
}

/// Folds the content of the cell at `index` into `hash`: an empty cell leaves
/// it as it is.
pub open spec fn hash_step(hash: u64, cell: Option<Piece>, index: int) -> u64 {
    match cell {
        None => hash,
        Some(piece) => (hash ^ ((piece_code(piece) + index * 127) as u64)).wrapping_mul(
            HASH_MULTIPLIER,
        ),
    }
}

impl Placement {
    /// A placement has exactly 64 cells.
    pub open spec fn wf(self) -> bool {
        self.cells.len() == 64
    }

    /// The placement with no piece at all.
    pub open spec fn empty() -> Placement {
        Placement { cells: Seq::new(64, |i: int| None) }
    }

    /// The piece on a square; nothing stands on a square off the board.
    pub open spec fn piece_at(self, sq: Square) -> Option<Piece> {
        if on_board(sq) {
            self.cells[square_index(sq)]
        } else {
            None
        }
    }

    /// Whether a piece of `color` stands on `sq`.
    pub open spec fn holds_color(self, sq: Square, color: Color) -> bool {
        self.piece_at(sq) matches Some(p) && p.color == color
    }

    /// The placement with the content of `sq` replaced; unchanged when `sq`
    /// is off the board.
    pub open spec fn with_piece(self, sq: Square, piece: Option<Piece>) -> Placement {
        if on_board(sq) {
            Placement { cells: self.cells.update(square_index(sq), piece) }
        } else {
            self
        }
    }

    /// The placement after the piece on `from` has gone to `to`: whatever
    /// stood on `to` is gone and `from` is empty.
    pub open spec fn relocate(self, from: Square, to: Square) -> Placement {
        self.with_piece(to, self.piece_at(from)).with_piece(from, None)
    }

    /// The squares that hold a piece.
    pub open spec fn occupied(self) -> spec_fn(Square) -> bool {
        |sq: Square| self.piece_at(sq) is Some
    }

    /// The number of pieces on the board.
    pub open spec fn piece_count(self) -> int {
        count_squares(self.occupied(), 64)
    }

    /// The hash of the first `n` cells.
    pub open spec fn hash_among(self, n: int) -> u64
        decreases n,
    {
        if n <= 0 {
            0
        } else {
            hash_step(self.hash_among(n - 1), self.cells[n - 1], n - 1)
        }
    }

    /// Whether `sq` holds a piece that is wanted.
    pub open spec fn holds_wanted(self, wanted: spec_fn(Piece) -> bool, sq: Square) -> bool {
        self.piece_at(sq) matches Some(p) && wanted(p)
    }

    /// `sq` is the first square in row-major order that holds a wanted
    /// piece.
    pub open spec fn is_first(self, wanted: spec_fn(Piece) -> bool, sq: Square) -> bool {
        &&& self.holds_wanted(wanted, sq)
        &&& forall|earlier: Square|
            on_board(earlier) && square_index(earlier) < square_index(sq)
                ==> !#[trigger] self.holds_wanted(wanted, earlier)
    }

    /// The first square in row-major order that holds a wanted piece, if
    /// any does.
    pub open spec fn locate_where(self, wanted: spec_fn(Piece) -> bool) -> Option<Square> {
        if exists|sq: Square| self.is_first(wanted, sq) {
            Some(choose|sq: Square| self.is_first(wanted, sq))
        } else {
            None
        }
    }

    /// The first square in row-major order that holds `piece`, if any does.
    pub open spec fn locate(self, piece: Piece) -> Option<Square> {
        self.locate_where(same_as(piece))
    }

    /// Where the king of `color` stands (the first one, should there be several).
    pub open spec fn king_square(self, color: Color) -> Option<Square> {
        self.locate(Piece { piece_type: PieceType::King, color })
    }

    /// The piece on `from` reaches `to` by one of the movement primitives
    /// that its kind is made of: a pseudo-legal move, which ignores the
    /// mover's king.
    pub open spec fn pseudo_legal(self, from: Square, to: Square) -> bool {
        match self.piece_at(from) {
            None => false,
            Some(p) => {
                let made_of = p.piece_type.composition();
                ||| made_of.king_step && king_reaches(self, from, to, p.color)
                ||| made_of.rook_slide && rook_reaches(self, from, to, p.color)
                ||| made_of.queen_slide && queen_reaches(self, from, to, p.color)
                ||| made_of.knight_leap && knight_reaches(self, from, to, p.color)
                ||| made_of.camel_leap && camel_reaches(self, from, to, p.color)
            },
        }
    }

    /// Some piece of `by` reaches `sq` pseudo-legally.
    pub open spec fn attacked(self, sq: Square, by: Color) -> bool {
        exists|from: Square| self.holds_color(from, by) && #[trigger] self.pseudo_legal(from, sq)
    }

    /// The king of `color` is attacked. A side without a king is never in check.
    pub open spec fn in_check(self, color: Color) -> bool {
        match self.king_square(color) {
            Some(king) => self.attacked(king, color.other()),
            None => false,
        }
    }

    /// `color` may move from `from` to `to`: one of its pieces stands on
    /// `from`, reaches `to` pseudo-legally, and the move does not leave its
    /// own king in check.
    pub open spec fn legal(self, color: Color, from: Square, to: Square) -> bool {
        &&& self.holds_color(from, color)
        &&& self.pseudo_legal(from, to)
        &&& !self.relocate(from, to).in_check(color)
    }

    /// The squares that `color` may legally move to from `from`.
    pub open spec fn legal_targets(self, color: Color, from: Square) -> spec_fn(Square) -> bool {
        |to: Square| self.legal(color, from, to)
    }

    /// The number of legal moves that `color` has from each square.
    pub open spec fn legal_moves_from(self, color: Color) -> spec_fn(Square) -> int {
        |from: Square| count_squares(self.legal_targets(color, from), 64)
    }

    /// The number of legal moves that `color` has.
    pub open spec fn legal_move_count(self, color: Color) -> int {
        sum_squares(self.legal_moves_from(color), 64)
    }

    /// `color` has a legal move.
    pub open spec fn has_legal_move(self, color: Color) -> bool {
        exists|from: Square, to: Square| #[trigger] self.legal(color, from, to)
    }

    /// `color` is in check and has no legal move.
    pub open spec fn checkmate(self, color: Color) -> bool {
        self.in_check(color) && !self.has_legal_move(color)
    }

    /// `color` is not in check and has no legal move.
    pub open spec fn stalemate(self, color: Color) -> bool {
        !self.in_check(color) && !self.has_legal_move(color)
    }

    /// Checkmate and stalemate exclude each other: a checkmated side is in
    /// check, a stalemated side is not, so no side is ever both.
    pub proof fn lemma_checkmate_excludes_stalemate(self, color: Color)
        ensures
            !(self.checkmate(color) && self.stalemate(color)),
            self.checkmate(color) ==> self.in_check(color),
            self.stalemate(color) ==> !self.in_check(color),
    {
    }

    /// `sq` holds the king of `color` and every other square is empty.
    pub open spec fn lone_king(self, sq: Square, color: Color) -> bool {
        &&& self.wf()
        &&& self.piece_at(sq) == Some(Piece { piece_type: PieceType::King, color })
        &&& forall|other: Square| other != sq ==> #[trigger] self.piece_at(other) is None
    }

    /// A king alone on the board may step onto every neighbouring square:
    /// its legal moves are its steps onto the board.
    pub proof fn lemma_lone_king_is_free(self, sq: Square, color: Color)
        requires
            self.lone_king(sq, color),
        ensures
            forall|from: Square, to: Square| #[trigger]
                self.legal(color, from, to) <==> from == sq && on_board(to) && king_step(sq, to),
    {
        assert forall|from: Square, to: Square| #[trigger]
            self.legal(color, from, to) <==> from == sq && on_board(to) && king_step(
                sq,
                to,
            ) by {
            if from == sq && on_board(to) && king_step(sq, to) {
                let after = self.relocate(sq, to);
                assert forall|attacker: Square|
                    !after.holds_color(attacker, color.other()) by {
                    if attacker != to {
                        assert(after.piece_at(attacker) is None) by {
                            if attacker != sq {
                                assert(self.piece_at(attacker) is None);
                            }
                        }
                    }
                }
                assert(self.piece_at(to) is None);
            }
        }
    }

    /// A king alone on the board has as many legal moves as it has
    /// neighbouring squares: eight when it stands off the edge, three in a
    /// corner.
    pub proof fn lemma_lone_king_move_count(self, sq: Square, color: Color)
        requires
            self.lone_king(sq, color),
        ensures
            1 <= sq.0 <= 6 && 1 <= sq.1 <= 6 ==> self.legal_move_count(color) == 8,
            (sq.0 == 0 || sq.0 == 7) && (sq.1 == 0 || sq.1 == 7) ==> self.legal_move_count(color)
                == 3,
    {
        self.lemma_lone_king_is_free(sq, color);
        lemma_square_index_round_trip();
        let per_square = self.legal_moves_from(color);
        let nothing = |from: Square| 0int;
        // No other square has a move to offer.
        assert forall|from: Square| on_board(from) && from != sq implies #[trigger] per_square(
            from,
        ) == 0 by {
            lemma_sum_bounds(indicator(self.legal_targets(color, from)), 0, 0, 64);
        }
        let elsewhere: Square = if sq == (0u8, 0u8) {
            (0u8, 1u8)
        } else {
            (0u8, 0u8)
        };
        lemma_sum_differs_at_two(per_square, nothing, sq, elsewhere, 64);
        lemma_sum_bounds(nothing, 0, 0, 64);
        assert(self.legal_move_count(color) == per_square(sq));

        let r = sq.0;
        let c = sq.1;
        if 1 <= r <= 6 && 1 <= c <= 6 {
            let around: Seq<Square> = seq![
                ((r - 1) as u8, (c - 1) as u8),
                ((r - 1) as u8, c),
                ((r - 1) as u8, (c + 1) as u8),
                (r, (c - 1) as u8),
                (r, (c + 1) as u8),
                ((r + 1) as u8, (c - 1) as u8),
                ((r + 1) as u8, c),
                ((r + 1) as u8, (c + 1) as u8),
            ];
            assert forall|to: Square| #[trigger]
                around.contains(to) <==> on_board(to) && square_index(to) < 64
                    && self.legal_targets(color, sq)(to) by {
                if on_board(to) && king_step(sq, to) {
                    let k: int = if to.0 < r {
                        to.1 - c + 1
                    } else if to.0 == r {
                        if to.1 < c {
                            3
                        } else {
                            4
                        }
                    } else {
                        to.1 - c + 6
                    };
                    assert(around[k] == to);
                }
            }
            lemma_count_distinct(around, self.legal_targets(color, sq), 64);
        }
        if (r == 0 || r == 7) && (c == 0 || c == 7) {
            let inward_row: u8 = if r == 0 {
                1
            } else {
                6
            };
            let inward_col: u8 = if c == 0 {
                1
            } else {
                6
            };
            let around: Seq<Square> = seq![
                (inward_row, c),
                (r, inward_col),
                (inward_row, inward_col),
            ];
            assert forall|to: Square| #[trigger]
                around.contains(to) <==> on_board(to) && square_index(to) < 64
                    && self.legal_targets(color, sq)(to) by {
                if on_board(to) && king_step(sq, to) {
                    let k: int = if to.1 == c {
                        0
                    } else if to.0 == r {
                        1
                    } else {
                        2
                    };
                    assert(around[k] == to);
                }
            }
            lemma_count_distinct(around, self.legal_targets(color, sq), 64);
        }
    }

    /// The starting placement of amazon and king against rook and king.
    pub open spec fn amazon_vs_rook() -> Placement {
        Placement {
            cells: Seq::new(
                64,
                |i: int|
                    if i == 0 {
                        Some(Piece { piece_type: PieceType::Rook, color: Color::Black })
                    } else if i == 4 {
                        Some(Piece { piece_type: PieceType::King, color: Color::Black })
                    } else if i == 59 {
                        Some(Piece { piece_type: PieceType::Amazon, color: Color::White })
                    } else if i == 60 {
                        Some(Piece { piece_type: PieceType::King, color: Color::White })
                    } else {
                        None
                    },
            ),
        }
    }

    /// A wanted piece that is found stands where it is found, on the board.
    pub proof fn lemma_located_where(self, wanted: spec_fn(Piece) -> bool)
        ensures
            self.locate_where(wanted) matches Some(sq) ==> on_board(sq) && self.holds_wanted(
                wanted,
                sq,
            ),
    {
        if let Some(sq) = self.locate_where(wanted) {
            assert(self.is_first(wanted, sq));
        }
    }

    /// A piece that is found stands where it is found, on the board.
    pub proof fn lemma_located(self, piece: Piece)
        ensures
            self.locate(piece) matches Some(sq) ==> on_board(sq) && self.piece_at(sq) == Some(
                piece,
            ),
    {
        self.lemma_located_where(same_as(piece));
    }

    /// There are between 0 and 64 pieces on the board.
    pub proof fn lemma_piece_count_bounds(self)
        ensures
            0 <= self.piece_count() <= 64,
    {
        lemma_sum_bounds(indicator(self.occupied()), 0, 1, 64);
    }

    /// At most one square is the first to hold a wanted piece.
    pub proof fn lemma_first_is_unique(self, wanted: spec_fn(Piece) -> bool, sq: Square)
        requires
            self.is_first(wanted, sq),
        ensures
            self.locate_where(wanted) == Some(sq),
    {
        let chosen = choose|s: Square| self.is_first(wanted, s);
        assert(self.is_first(wanted, chosen));
        assert(on_board(sq) && on_board(chosen));
        if square_index(chosen) < square_index(sq) {
            assert(!self.holds_wanted(wanted, chosen));
        } else if square_index(sq) < square_index(chosen) {
            assert(!self.holds_wanted(wanted, sq));
        }
    }

    /// Where nothing wanted stands, nothing wanted is found.
    pub proof fn lemma_none_wanted(self, wanted: spec_fn(Piece) -> bool)
        requires
            forall|sq: Square| on_board(sq) ==> !#[trigger] self.holds_wanted(wanted, sq),
        ensures
            self.locate_where(wanted) is None,
    {
        assert forall|sq: Square| !self.is_first(wanted, sq) by {
            if self.holds_wanted(wanted, sq) {
                assert(on_board(sq));
            }
        }
    }
}

impl Position {
    /// The placement of a position has exactly 64 cells.
    pub open spec fn wf(self) -> bool {
        self.placement.wf()
    }

    /// The empty position: no piece, White to move, no history.
    pub open spec fn empty() -> Position {
        Position {
            placement: Placement::empty(),
            side_to_move: Color::White,
            history: Seq::empty(),
        }
    }

    /// The starting position of amazon and king against rook and king, with
    /// White to move and no history.
    pub open spec fn amazon_vs_rook() -> Position {
        Position {
            placement: Placement::amazon_vs_rook(),
            side_to_move: Color::White,
            history: Seq::empty(),
        }
    }

    /// The piece on a square; nothing stands on a square off the board.
    pub open spec fn piece_at(self, sq: Square) -> Option<Piece> {
        self.placement.piece_at(sq)
    }

    /// The position with the content of `sq` replaced; unchanged when `sq` is
    /// off the board.
    pub open spec fn with_piece(self, sq: Square, piece: Option<Piece>) -> Position {
        Position { placement: self.placement.with_piece(sq, piece), ..self }
    }

    /// The position with `color` to move.
    pub open spec fn with_side(self, color: Color) -> Position {
        Position { side_to_move: color, ..self }
    }

    /// The position with its history forgotten.
    pub open spec fn without_history(self) -> Position {
        Position { history: Seq::empty(), ..self }
    }

    /// The fingerprint of the position: every occupied square with its piece,
    /// folded in row-major order, and the side to move. The history is no
    /// part of it.
    pub open spec fn hash(self) -> u64 {
        let h = self.placement.hash_among(64);
        if self.side_to_move == Color::Black {
            h ^ BLACK_TO_MOVE_MASK
        } else {
            h
        }
    }

    /// How often the position's own hash occurs in its history.
    pub open spec fn repetition_count(self) -> nat {
        occurrences(self.history, self.hash())
    }

    /// The king of `color` is attacked.
    pub open spec fn in_check(self, color: Color) -> bool {
        self.placement.in_check(color)
    }

    /// The position after the piece on `from` has gone to `to`: the old hash
    /// joins the history, whatever stood on `to` is gone, `from` is empty and
    /// the other side is to move. No legality is asked for.
    pub open spec fn make_move(self, from: Square, to: Square) -> Position {
        Position {
            placement: self.placement.relocate(from, to),
            side_to_move: self.side_to_move.other(),
            history: self.history.push(self.hash()),
        }
    }

    /// The position after `mv` has been taken back: the newest hash leaves the
    /// history, the piece on `mv.to` returns to `mv.from`, `mv.to` holds what
    /// was captured and the other side is to move.
    pub open spec fn unmake_move(self, mv: Move) -> Position {
        Position {
            placement: self.placement.with_piece(mv.from, self.piece_at(mv.to)).with_piece(
                mv.to,
                mv.captured,
            ),
            side_to_move: self.side_to_move.other(),
            history: if self.history.len() > 0 {
                self.history.drop_last()
            } else {
                self.history
            },
        }
    }

    /// Taking a move back undoes it: after `make_move` and `unmake_move` with
    /// the move that `make_move` returned, every square, the side to move and
    /// the history are as before. This holds whenever the destination is on
    /// the board or there is nothing on `from` to move.
    pub proof fn lemma_unmake_undoes_make(self, from: Square, to: Square)
        requires
            self.wf(),
            on_board(to) || self.piece_at(from) is None,
        ensures
            self.make_move(from, to).unmake_move(
                Move { from, to, captured: self.piece_at(to) },
            ) == self,
    {
        let mv = Move { from, to, captured: self.piece_at(to) };
        let after = self.make_move(from, to).unmake_move(mv);
        assert(after.placement.cells =~= self.placement.cells);
        assert(after.history =~= self.history);
    }

    /// Every legal move is undone exactly by taking it back.
    pub proof fn lemma_legal_move_is_reversible(self, mv: Move)
        requires
            self.wf(),
            self.legal_move(mv),
        ensures
            self.make_move(mv.from, mv.to).unmake_move(mv) == self,
            self.make_move(mv.from, mv.to).unmake_move(mv).history.len() == self.history.len(),
    {
        self.lemma_unmake_undoes_make(mv.from, mv.to);
    }

    /// The side to move may move from `from` to `to`.
    pub open spec fn legal(self, from: Square, to: Square) -> bool {
        self.placement.legal(self.side_to_move, from, to)
    }

    /// The side to move has a legal move.
    pub open spec fn has_legal_move(self) -> bool {
        self.placement.has_legal_move(self.side_to_move)
    }

    /// `mv` is a legal move of the side to move that records what it captures.
    pub open spec fn legal_move(self, mv: Move) -> bool {
        self.legal(mv.from, mv.to) && mv.captured == self.piece_at(mv.to)
    }

    /// Legal moves are pseudo-legal: every move in a complete list of the
    /// legal moves of a position is found, by its destination, in a complete
    /// list of the pseudo-legal moves from its origin square.
    pub proof fn lemma_legal_moves_are_pseudo_legal(
        self,
        legal: Seq<Move>,
        from: Square,
        pseudo: Seq<Square>,
    )
        requires
            forall|mv: Move| #[trigger] legal.contains(mv) <==> self.legal_move(mv),
            forall|to: Square| #[trigger]
                pseudo.contains(to) <==> self.placement.pseudo_legal(from, to),
        ensures
            forall|mv: Move| #[trigger]
                legal.contains(mv) && mv.from == from ==> pseudo.contains(mv.to),
    {
    }

    /// A complete list of the legal moves is empty exactly when the side to
    /// move has no legal move.
    pub proof fn lemma_no_moves_means_none_legal(self, moves: Seq<Move>)
        requires
            forall|mv: Move| #[trigger] moves.contains(mv) <==> self.legal_move(mv),
        ensures
            moves.len() == 0 <==> !self.placement.has_legal_move(self.side_to_move),
    {
        if moves.len() > 0 {
            assert(moves.contains(moves[0]));
            assert(self.placement.legal(self.side_to_move, moves[0].from, moves[0].to));
        }
        if self.placement.has_legal_move(self.side_to_move) {
            let (from, to) = choose|from: Square, to: Square| #[trigger]
                self.placement.legal(self.side_to_move, from, to);
            let mv = Move { from, to, captured: self.piece_at(to) };
            assert(self.legal_move(mv));
            assert(moves.contains(mv));
        }
    }

    /// `color` is in check and would have no legal move if it were to move.
    pub open spec fn checkmate(self, color: Color) -> bool {
        self.placement.checkmate(color)
    }

    /// `color` is not in check and would have no legal move if it were to move.
    pub open spec fn stalemate(self, color: Color) -> bool {
        self.placement.stalemate(color)
    }
}

/// The board: an 8x8 grid of optional pieces, the side to move, and the
/// hashes of earlier positions for repetition counting.
pub struct Board {
    squares: [[Option<Piece>; 8]; 8],
    side_to_move: Color,
    position_history: Vec<u64>,
}

impl View for Board {
    type V = Position;

    closed spec fn view(&self) -> Position {
        Position {
            placement: Placement { cells: Seq::new(64, |i: int| self.squares[i / 8][i % 8]) },
            side_to_move: self.side_to_move,
            history: self.position_history@,
        }
    }
}

impl Default for Board {
    /// The empty board.
    fn default() -> (board: Self)
        ensures
            board@ == Position::empty(),
    {
        Board::new()
    }
}

impl Board {
    /// The position of every board has 64 cells.
    pub proof fn lemma_view_wf(&self)
        ensures
            self@.wf(),
    {
    }

    /// Creates an empty board with White to move and no history.
    pub fn new() -> (board: Self)
        ensures
            board@ == Position::empty(),
    {
        let board = Board {
            squares: [[None; 8]; 8],
            side_to_move: Color::White,
            position_history: Vec::new(),
        };
        assert(board@.placement.cells =~= Placement::empty().cells);
        board
    }

    /// Returns the piece on `square`, or `None` when the square is empty or
    /// off the board.
    pub fn get_piece(&self, square: Square) -> (piece: Option<Piece>)
        ensures
            piece == self@.piece_at(square),
    {
        let (row, col) = square;
        if row < 8 && col < 8 {
            self.squares[row as usize][col as usize]
        } else {
            None
        }
    }

    /// Puts `piece` (or nothing) on `square`; does nothing when the square is
    /// off the board.
    pub fn set_piece(&mut self, square: Square, piece: Option<Piece>)
        ensures
            final(self)@ == old(self)@.with_piece(square, piece),
    {
        let (row, col) = square;
        if row < 8 && col < 8 {
            self.squares[row as usize][col as usize] = piece;
            assert(self@.placement.cells =~= old(self)@.placement.cells.update(
                square_index(square),
                piece,
            ));
        }
    }

    /// Returns the side to move.
    pub fn side_to_move(&self) -> (color: Color)
        ensures
            color == self@.side_to_move,
    {
        self.side_to_move
    }

    /// Sets the side to move.
    pub fn set_side_to_move(&mut self, color: Color)
        ensures
            final(self)@ == old(self)@.with_side(color),
    {
        self.side_to_move = color;
    }

    /// Forgets the history, as at the start of a new game.
    pub fn clear_history(&mut self)
        ensures
            final(self)@ == old(self)@.without_history(),
    {
        self.position_history.clear();
    }

    /// Computes the fingerprint of the position, for repetition detection.
    pub fn position_hash(&self) -> (hash: u64)
        ensures
            hash == self@.hash(),
    {
        let mut hash: u64 = 0;
        for row in 0..8u8
            invariant
                hash == self@.placement.hash_among(row * 8),
        {
            for col in 0..8u8
                invariant
                    row < 8,
                    hash == self@.placement.hash_among(row * 8 + col),
            {
                if let Some(piece) = self.get_piece((row, col)) {
                    let piece_value: u64 = match piece.piece_type {
                        PieceType::King => 1,
                        PieceType::Amazon => 2,
                        PieceType::Rook => 3,
                        PieceType::QNC => 4,
                    };
                    let color_value: u64 = match piece.color {
                        Color::White => 0,
                        Color::Black => 64,
                    };
                    let square_value: u64 = (row as u64) * 8 + (col as u64);
                    hash ^= (piece_value + color_value) * 31 + square_value * 127;
                    hash = hash.wrapping_mul(HASH_MULTIPLIER);
                }
            }
        }
        if self.side_to_move == Color::Black {
            hash ^= BLACK_TO_MOVE_MASK;
        }
        hash
    }

    /// Counts how often the current position occurs in the history.
    pub fn repetition_count(&self) -> (count: usize)
        ensures
            count == self@.repetition_count(),
    {
        let current_hash = self.position_hash();
        let mut count: usize = 0;
        for i in 0..self.position_history.len()
            invariant
                count <= i,
                count == occurrences(self.position_history@.take(i as int), current_hash),
        {
            assert(self.position_history@.take(i + 1).drop_last() =~= self.position_history@.take(
                i as int,
            ));
            if self.position_history[i] == current_hash {
                count += 1;
            }
        }
        assert(self.position_history@.take(self.position_history@.len() as int)
            =~= self.position_history@);
        count
    }

    /// Whether the current position has occurred before.
    pub fn is_repetition(&self) -> (repeated: bool)
        ensures
            repeated == (self@.repetition_count() >= 1),
    {
        self.repetition_count() >= 1
    }

    /// Sets up the starting position of amazon and king against rook and
    /// king: White's amazon on d1 and king on e1, Black's rook on a8 and king
    /// on e8, White to move.
    pub fn setup_amazon_vs_rook() -> (board: Self)
        ensures
            board@ == Position::amazon_vs_rook(),
    {
        let mut board = Board::new();
        board.set_piece((0, 0), Some(Piece::new(PieceType::Rook, Color::Black)));
        board.set_piece((0, 4), Some(Piece::new(PieceType::King, Color::Black)));
        board.set_piece((7, 3), Some(Piece::new(PieceType::Amazon, Color::White)));
        board.set_piece((7, 4), Some(Piece::new(PieceType::King, Color::White)));
        board.side_to_move = Color::White;
        assert(board@.placement.cells =~= Placement::amazon_vs_rook().cells);
        board
    }

    /// Makes the move from `from` to `to` without asking whether it is legal,
    /// and returns it together with the piece it captured, as `unmake_move`
    /// needs it.
    pub fn make_move(&mut self, from: Square, to: Square) -> (mv: Move)
        ensures
            final(self)@ == old(self)@.make_move(from, to),
            mv == (Move { from, to, captured: old(self)@.piece_at(to) }),
    {
        let hash = self.position_hash();
        self.position_history.push(hash);

        let captured = self.get_piece(to);
        let piece = self.get_piece(from);

        self.set_piece(to, piece);
        self.set_piece(from, None);
        self.side_to_move = self.side_to_move.opposite();

        Move { from, to, captured }
    }

    /// Takes back `mv`, which must be the move made last, restoring the
    /// position before it.
    pub fn unmake_move(&mut self, mv: Move)
        ensures
            final(self)@ == old(self)@.unmake_move(mv),
    {
        self.position_history.pop();

        let piece = self.get_piece(mv.to);

        self.set_piece(mv.from, piece);
        self.set_piece(mv.to, mv.captured);
        self.side_to_move = self.side_to_move.opposite();
    }

    /// Finds the first square in row-major order that holds `piece`.
    pub fn find_piece(&self, piece: Piece) -> (found: Option<Square>)
        ensures
            found == self@.placement.locate(piece),
    {
        let ghost grid = self@.placement;
        let ghost wanted = same_as(piece);
        for row in 0..8u8
            invariant
                grid == self@.placement,
                wanted == same_as(piece),
                forall|sq: Square|
                    on_board(sq) && sq.0 < row ==> !#[trigger] grid.holds_wanted(wanted, sq),
        {
            for col in 0..8u8
                invariant
                    row < 8,
                    grid == self@.placement,
                    wanted == same_as(piece),
                    forall|sq: Square|
                        on_board(sq) && square_index(sq) < row * 8 + col
                            ==> !#[trigger] grid.holds_wanted(wanted, sq),
            {
                if let Some(p) = self.get_piece((row, col)) {
                    if p.piece_type == piece.piece_type && p.color == piece.color {
                        proof {
                            assert(grid.is_first(wanted, (row, col)));
                            grid.lemma_first_is_unique(wanted, (row, col));
                        }
                        return Some((row, col));
                    }
                }
            }
        }
        proof {
            grid.lemma_none_wanted(wanted);
        }
        None
    }

    /// Finds the king of `color`.
    pub fn find_king(&self, color: Color) -> (found: Option<Square>)
        ensures
            found == self@.placement.king_square(color),
    {
        self.find_piece(Piece::new(PieceType::King, color))
    }

    /// Whether `moves` holds `square`.
    fn holds_square(moves: &Vec<Square>, square: Square) -> (found: bool)
        ensures
            found == moves@.contains(square),
    {
        for i in 0..moves.len()
            invariant
                forall|j: int| 0 <= j < i ==> moves@[j] != square,
        {
            let candidate = moves[i];
            if candidate.0 == square.0 && candidate.1 == square.1 {
                return true;
            }
        }
        false
    }

    /// Generates the pseudo-legal moves of the piece on `from`, by its kind:
    /// every square it reaches exactly once, and nothing when `from` is empty.
    pub fn pseudo_legal_moves(&self, from: Square) -> (moves: Vec<Square>)
        ensures
            forall|to: Square| #[trigger]
                moves@.contains(to) <==> self@.placement.pseudo_legal(from, to),
            moves@.no_duplicates(),
    {
        match self.get_piece(from) {
            None => Vec::new(),
            Some(piece) => match piece.piece_type {
                PieceType::King => KingMoves::generate_moves(self, from),
                PieceType::Amazon => AmazonMoves::generate_moves(self, from),
                PieceType::Rook => RookMoves::generate_moves(self, from),
                PieceType::QNC => QncMoves::generate_moves(self, from),
            },
        }
    }

    /// Whether a piece of `by_color` stands on `from` and reaches `square`
    /// pseudo-legally.
    fn attacks_from(&self, from: Square, square: Square, by_color: Color) -> (attacks: bool)
        ensures
            attacks == (self@.placement.holds_color(from, by_color)
                && self@.placement.pseudo_legal(from, square)),
    {
        if let Some(piece) = self.get_piece(from) {
            if piece.color == by_color {
                let moves = self.pseudo_legal_moves(from);
                return Self::holds_square(&moves, square);
            }
        }
        false
    }

    /// Whether any piece of `by_color` reaches `square` pseudo-legally.
    pub fn is_square_attacked(&self, square: Square, by_color: Color) -> (attacked: bool)
        ensures
            attacked == self@.placement.attacked(square, by_color),
    {
        let ghost grid = self@.placement;
        for row in 0..8u8
            invariant
                grid == self@.placement,
                forall|from: Square|
                    from.0 < row ==> !(grid.holds_color(from, by_color)
                        && #[trigger] grid.pseudo_legal(from, square)),
        {
            for col in 0..8u8
                invariant
                    row < 8,
                    grid == self@.placement,
                    forall|from: Square|
                        from.0 < row || (from.0 == row && from.1 < col) ==> !(grid.holds_color(
                            from,
                            by_color,
                        ) && #[trigger] grid.pseudo_legal(from, square)),
            {
                if self.attacks_from((row, col), square, by_color) {
                    return true;
                }
            }
        }
        assert forall|from: Square|
            !(grid.holds_color(from, by_color) && #[trigger] grid.pseudo_legal(
                from,
                square,
            )) by {
            if grid.holds_color(from, by_color) {
                assert(on_board(from));
            }
        }
        false
    }

    /// Whether the king of `color` is attacked. A side without a king is not
    /// in check.
    pub fn is_in_check(&self, color: Color) -> (check: bool)
        ensures
            check == self@.in_check(color),
    {
        if let Some(king_square) = self.find_king(color) {
            self.is_square_attacked(king_square, color.opposite())
        } else {
            false
        }
    }

    /// Generates the legal moves of the side to move: for each of its pieces
    /// every pseudo-legal move is made, kept if the mover's king is not in
    /// check afterwards, and taken back. Every legal move is returned exactly
    /// once, and the board is left as it was found.
    pub fn generate_legal_moves(&mut self) -> (moves: Vec<Move>)
        ensures
            final(self)@ == old(self)@,
            forall|mv: Move| #[trigger] moves@.contains(mv) <==> old(self)@.legal_move(mv),
            moves@.no_duplicates(),
            moves@.len() == old(self)@.placement.legal_move_count(old(self)@.side_to_move),
    {
        let mut legal_moves: Vec<Move> = Vec::new();
        let color = self.side_to_move;
        let ghost pos = self@;
        let ghost grid = self@.placement;

        for row in 0..8u8
            invariant
                self@ == pos,
                pos.wf(),
                grid == pos.placement,
                color == pos.side_to_move,
                legal_moves@.no_duplicates(),
                forall|mv: Move| #[trigger]
                    legal_moves@.contains(mv) <==> pos.legal_move(mv) && mv.from.0 < row,
                legal_moves@.len() == sum_squares(grid.legal_moves_from(color), row * 8),
        {
            for col in 0..8u8
                invariant
                    row < 8,
                    self@ == pos,
                    pos.wf(),
                    grid == pos.placement,
                    color == pos.side_to_move,
                    legal_moves@.no_duplicates(),
                    forall|mv: Move| #[trigger]
                        legal_moves@.contains(mv) <==> pos.legal_move(mv) && square_index(mv.from)
                            < row * 8 + col,
                    legal_moves@.len() == sum_squares(
                        grid.legal_moves_from(color),
                        row * 8 + col,
                    ),
            {
                let from = (row, col);
                let ghost base = legal_moves@.len();
                let ghost mut kept: Seq<Square> = Seq::empty();
                proof {
                    lemma_square_index_round_trip();
                    assert(square_of_index(row * 8 + col) == from);
                }
                let mut ours = false;
                if let Some(piece) = self.get_piece(from) {
                    if piece.color == color {
                        ours = true;
                    }
                }
                if ours {
                    let pseudo_moves = self.pseudo_legal_moves(from);
                    for k in 0..pseudo_moves.len()
                        invariant
                            row < 8,
                            col < 8,
                            from == (row, col),
                            self@ == pos,
                            pos.wf(),
                            grid == pos.placement,
                            color == pos.side_to_move,
                            grid.holds_color(from, color),
                            pseudo_moves@.no_duplicates(),
                            forall|to: Square| #[trigger]
                                pseudo_moves@.contains(to) <==> grid.pseudo_legal(from, to),
                            legal_moves@.no_duplicates(),
                            forall|mv: Move| #[trigger]
                                legal_moves@.contains(mv) <==> pos.legal_move(mv) && (square_index(
                                    mv.from,
                                ) < row * 8 + col || (mv.from == from && pseudo_moves@.take(
                                    k as int,
                                ).contains(mv.to))),
                            legal_moves@.len() == base + kept.len(),
                            kept.no_duplicates(),
                            forall|to: Square| #[trigger]
                                kept.contains(to) <==> grid.legal(color, from, to)
                                    && pseudo_moves@.take(k as int).contains(to),
                    {
                        let to = pseudo_moves[k];
                        let ghost before = legal_moves@;
                        assert(pseudo_moves@.contains(to));
                        assert(pseudo_moves@.take(k + 1) =~= pseudo_moves@.take(k as int).push(
                            to,
                        ));
                        proof {
                            lemma_push_contains(pseudo_moves@.take(k as int), to);
                            pos.lemma_unmake_undoes_make(from, to);
                            if pseudo_moves@.take(k as int).contains(to) {
                                let j = choose|j: int|
                                    0 <= j < k && pseudo_moves@.take(k as int)[j] == to;
                                assert(pseudo_moves@[j] == to);
                            }
                        }
                        let mv = self.make_move(from, to);
                        if !self.is_in_check(color) {
                            legal_moves.push(mv);
                            proof {
                                lemma_push_contains(before, mv);
                                lemma_push_contains(kept, to);
                                kept = kept.push(to);
                            }
                        }
                        self.unmake_move(mv);
                    }
                    assert(pseudo_moves@.take(pseudo_moves@.len() as int) =~= pseudo_moves@);
                }
                proof {
                    assert forall|to: Square| #[trigger]
                        kept.contains(to) <==> on_board(to) && square_index(to) < 64
                            && grid.legal_targets(color, from)(to) by {
                        if kept.len() == 0 && kept.contains(to) {
                            let j = choose|j: int| 0 <= j < kept.len() && kept[j] == to;
                        }
                    }
                    lemma_count_distinct(kept, grid.legal_targets(color, from), 64);
                    assert(grid.legal_moves_from(color)(from) == kept.len());
                }
            }
        }

        legal_moves
    }

    /// Whether `color` is checkmated: in check, and without a legal move if
    /// it were to move. The board is left as it was found.
    pub fn is_checkmate(&mut self, color: Color) -> (mate: bool)
        ensures
            final(self)@ == old(self)@,
            mate == old(self)@.checkmate(color),
    {
        if !self.is_in_check(color) {
            return false;
        }
        let side_before = self.side_to_move;
        self.side_to_move = color;

        let moves = self.generate_legal_moves();
        let has_no_moves = moves.len() == 0;
        proof {
            old(self)@.with_side(color).lemma_no_moves_means_none_legal(moves@);
        }

        self.side_to_move = side_before;
        has_no_moves
    }

    /// Whether `color` is stalemated: not in check, and without a legal move
    /// if it were to move. The board is left as it was found.
    pub fn is_stalemate(&mut self, color: Color) -> (stalemate: bool)
        ensures
            final(self)@ == old(self)@,
            stalemate == old(self)@.stalemate(color),
    {
        if self.is_in_check(color) {
            return false;
        }
        let side_before = self.side_to_move;
        self.side_to_move = color;

        let moves = self.generate_legal_moves();
        let has_no_moves = moves.len() == 0;
        proof {
            old(self)@.with_side(color).lemma_no_moves_means_none_legal(moves@);
        }

        self.side_to_move = side_before;
        has_no_moves
    }
}

} // verus!
